//! Settings: one `.txt` file per setting in a directory, the file's name
//! (without `.txt`) naming the setting and its content giving the value.

use crate::text::{ends_with, ends_with_str, trim_end_all, trim_end_matches_str};
use vstd::prelude::*;

verus! {

/// A directory entry offered as a setting: its file name and, when the file
/// could be read, its content.
pub struct SettingsFile {
    pub file_name: String,
    pub content: Option<String>,
}

/// One setting read from a file.
pub struct SettingEntry {
    pub name: String,
    pub value: String,
}

/// The bot's settings. The two percentages are kept as the text that the
/// settings give; they are read as numbers where they are used.
#[allow(non_snake_case)]
pub struct Settings {
    pub API_EXCHANGE: String,
    pub API_2_EXCHANGE: String,
    pub MODE: String,
    pub ACCOUNT_TYPE: String,
    pub THRESHOLD_PERCENT: String,
    pub LIMIT_PERCENT: String,
}

/// The setting named by a file: files whose name ends with `.txt` name the
/// setting spelled by the file name with every trailing `.txt` removed.
pub open spec fn setting_name_of(file_name: Seq<char>) -> Option<Seq<char>> {
    if ends_with(file_name, ".txt"@) {
        Some(trim_end_all(file_name, ".txt"@))
    } else {
        None
    }
}

/// The settings that a list of files gives, in list order.
pub open spec fn entries_of(files: Seq<SettingsFile>) -> Seq<(Seq<char>, Seq<char>)>
    decreases files.len(),
{
    if files.len() == 0 {
        Seq::empty()
    } else {
        let f = files.last();
        entries_of(files.drop_last()) + (if setting_name_of(f.file_name@) is Some && f.content is Some {
            seq![(setting_name_of(f.file_name@)->Some_0, f.content->Some_0@)]
        } else {
            Seq::empty()
        })
    }
}

/// The view of a list of settings.
pub open spec fn entries_view(es: Seq<SettingEntry>) -> Seq<(Seq<char>, Seq<char>)> {
    es.map_values(|e: SettingEntry| (e.name@, e.value@))
}

/// The value of the last setting named `name`, if any.
pub open spec fn last_value(es: Seq<(Seq<char>, Seq<char>)>, name: Seq<char>) -> Option<Seq<char>>
    decreases es.len(),
{
    if es.len() == 0 {
        None
    } else if es.last().0 == name {
        Some(es.last().1)
    } else {
        last_value(es.drop_last(), name)
    }
}

/// The value of setting `name`, or `default` when no setting has that name.
pub open spec fn setting_or_default(es: Seq<(Seq<char>, Seq<char>)>, name: Seq<char>, default: Seq<char>) -> Seq<char> {
    match last_value(es, name) {
        Some(v) => v,
        None => default,
    }
}

/// The name of the setting that a file gives, if it gives one.
pub fn settings_key(file_name: &str) -> (name: Option<String>)
    ensures
        match name {
            Some(n) => setting_name_of(file_name@) == Some(n@),
            None => setting_name_of(file_name@) is None,
        },
{
    if ends_with_str(file_name, ".txt") {
        Some(trim_end_matches_str(file_name, ".txt"))
    } else {
        None
    }
}

/// The settings given by the files that were offered, in list order.
pub fn g_(files: &Vec<SettingsFile>) -> (entries: Vec<SettingEntry>)
    ensures
        entries_view(entries@) == entries_of(files@),
{
    let mut entries: Vec<SettingEntry> = Vec::new();
    let mut i: usize = 0;
    while i < files.len()
        invariant
            i <= files.len(),
            entries_view(entries@) == entries_of(files@.take(i as int)),
        decreases files.len() - i,
    {
        let f = &files[i];
        let ghost before = entries@;
        assert(files@.take(i + 1).drop_last() =~= files@.take(i as int));
        assert(files@.take(i + 1).last() == *f);
        match (settings_key(f.file_name.as_str()), &f.content) {
            (Some(name), Some(content)) => {
                let value = content.clone();
                entries.push(SettingEntry { name, value });
                assert(entries_view(entries@) =~= entries_view(before).push(
                    (setting_name_of(f.file_name@)->Some_0, f.content->Some_0@),
                ));
            },
            _ => {},
        }
        i = i + 1;
    }
    assert(files@.take(files.len() as int) =~= files@);
    entries
}

/// The value of setting `name`: the content of the last file that names it,
/// or `default` when none does.
pub fn setting_or(entries: &Vec<SettingEntry>, name: &str, default: &str) -> (value: String)
    ensures
        value@ == setting_or_default(entries_view(entries@), name@, default@),
{
    let ghost es = entries_view(entries@);
    let mut i: usize = entries.len();
    assert(es.take(i as int) =~= es);
    while i > 0
        invariant
            i <= entries.len(),
            es == entries_view(entries@),
            last_value(es, name@) == last_value(es.take(i as int), name@),
        decreases i,
    {
        let e = &entries[i - 1];
        assert(es.take(i as int).last() == (e.name@, e.value@));
        assert(es.take(i as int).drop_last() =~= es.take(i - 1));
        if crate::text::str_eq(e.name.as_str(), name) {
            return e.value.clone();
        }
        i = i - 1;
    }
    default.to_owned()
}

/// The settings, each taken from the files or else from its default.
pub fn settings_from(entries: &Vec<SettingEntry>) -> (s: Settings)
    ensures
        s.API_EXCHANGE@ == setting_or_default(entries_view(entries@), "API_EXCHANGE"@, "default_exchange"@),
        s.API_2_EXCHANGE@ == setting_or_default(entries_view(entries@), "API_2_EXCHANGE"@, "default_exchange_2"@),
        s.MODE@ == setting_or_default(entries_view(entries@), "MODE"@, "default_mode"@),
        s.ACCOUNT_TYPE@ == setting_or_default(entries_view(entries@), "ACCOUNT_TYPE"@, "default_account"@),
        s.THRESHOLD_PERCENT@ == setting_or_default(entries_view(entries@), "THRESHOLD_PERCENT"@, "0.0"@),
        s.LIMIT_PERCENT@ == setting_or_default(entries_view(entries@), "LIMIT_PERCENT"@, "0.0"@),
{
    Settings {
        API_EXCHANGE: setting_or(entries, "API_EXCHANGE", "default_exchange"),
        API_2_EXCHANGE: setting_or(entries, "API_2_EXCHANGE", "default_exchange_2"),
        MODE: setting_or(entries, "MODE", "default_mode"),
        ACCOUNT_TYPE: setting_or(entries, "ACCOUNT_TYPE", "default_account"),
        THRESHOLD_PERCENT: setting_or(entries, "THRESHOLD_PERCENT", "0.0"),
        LIMIT_PERCENT: setting_or(entries, "LIMIT_PERCENT", "0.0"),
    }
}

/// A setting's name never ends with the suffix that was trimmed from it.
pub proof fn lemma_trimmed_name(file_name: Seq<char>, suffix: Seq<char>)
    requires
        suffix.len() > 0,
    ensures
        !ends_with(trim_end_all(file_name, suffix), suffix),
    decreases file_name.len(),
{
    if ends_with(file_name, suffix) {
        lemma_trimmed_name(file_name.subrange(0, file_name.len() - suffix.len()), suffix);
    }
}

/// Appending a file whose name ends in `.txt` and whose content was read
/// appends exactly one setting, its name without `.txt` and its content,
/// whatever the content (the empty text included); any other file adds
/// nothing. No files give no settings.
pub proof fn lemma_entries_of_push(files: Seq<SettingsFile>, f: SettingsFile)
    ensures
        entries_of(Seq::<SettingsFile>::empty()) == Seq::<(Seq<char>, Seq<char>)>::empty(),
        entries_of(files.push(f)) == if ends_with(f.file_name@, ".txt"@) && f.content is Some {
            entries_of(files).push((trim_end_all(f.file_name@, ".txt"@), f.content->Some_0@))
        } else {
            entries_of(files)
        },
{
    assert(files.push(f).drop_last() =~= files);
    let e = (trim_end_all(f.file_name@, ".txt"@), f.content->Some_0@);
    assert(entries_of(files) + seq![e] =~= entries_of(files).push(e));
    assert(entries_of(files) + Seq::<(Seq<char>, Seq<char>)>::empty() =~= entries_of(files));
}

/// The last setting of a name is the one that counts: a setting appended
/// under `name` is the value of `name`, and one appended under another name
/// leaves the value of `name` as it was.
pub proof fn lemma_last_value_push(es: Seq<(Seq<char>, Seq<char>)>, e: (Seq<char>, Seq<char>), name: Seq<char>)
    ensures
        last_value(Seq::<(Seq<char>, Seq<char>)>::empty(), name) is None,
        last_value(es.push(e), name) == if e.0 == name { Some(e.1) } else { last_value(es, name) },
{
    assert(es.push(e).drop_last() =~= es);
}

} // verus!
