//! Character-level string helpers with exact specifications.

use vstd::prelude::*;

verus! {

/// `s` with every occurrence of `c` removed, the other characters kept in order.
pub open spec fn without_char(s: Seq<char>, c: char) -> Seq<char>
    decreases s.len(),
{
    if s.len() == 0 {
        s
    } else {
        (if s[0] == c { Seq::<char>::empty() } else { seq![s[0]] }) + without_char(s.skip(1), c)
    }
}

/// `needle` occurs in `hay` as a contiguous run of characters.
pub open spec fn has_substring(hay: Seq<char>, needle: Seq<char>) -> bool {
    exists|i: int| 0 <= i <= hay.len() - needle.len() && #[trigger] hay.subrange(i, i + needle.len()) == needle
}

/// `suffix` is a suffix of `s`.
pub open spec fn ends_with(s: Seq<char>, suffix: Seq<char>) -> bool {
    suffix.len() <= s.len() && s.subrange(s.len() - suffix.len(), s.len() as int) == suffix
}

/// `s` with `suffix` removed from its end as many times as it occurs there
/// (what `str::trim_end_matches` does with a string pattern).
pub open spec fn trim_end_all(s: Seq<char>, suffix: Seq<char>) -> Seq<char>
    decreases s.len(),
{
    if suffix.len() > 0 && ends_with(s, suffix) {
        trim_end_all(s.subrange(0, s.len() - suffix.len()), suffix)
    } else {
        s
    }
}

/// `s` with every two-character run `\"` replaced by `"`, scanning left to
/// right (what `str::replace("\\\"", "\"")` computes).
pub open spec fn unescape_quotes(s: Seq<char>) -> Seq<char>
    decreases s.len(),
{
    if s.len() == 0 {
        s
    } else if s.len() >= 2 && s[0] == '\\' && s[1] == '"' {
        seq!['"'] + unescape_quotes(s.skip(2))
    } else {
        seq![s[0]] + unescape_quotes(s.skip(1))
    }
}

/// The decimal digit character for `d < 10`.
pub open spec fn digit_char(d: nat) -> char {
    if d == 0 { '0' } else if d == 1 { '1' } else if d == 2 { '2' } else if d == 3 { '3' }
    else if d == 4 { '4' } else if d == 5 { '5' } else if d == 6 { '6' } else if d == 7 { '7' }
    else if d == 8 { '8' } else { '9' }
}

/// The decimal notation of `n`: no sign, no leading zeros, `"0"` for zero.
pub open spec fn decimal(n: nat) -> Seq<char>
    decreases n,
{
    if n < 10 {
        seq![digit_char(n)]
    } else {
        decimal(n / 10).push(digit_char(n % 10))
    }
}

/// Appends one character to a string (`String::push`).
#[verifier::external_body]
pub(crate) fn push_char(s: &mut String, c: char)
    ensures
        final(s)@ == old(s)@.push(c),
{
    s.push(c);
}

/// The characters of `s`, in order.
pub fn chars_of(s: &str) -> (res: Vec<char>)
    ensures
        res@ == s@,
{
    let mut res: Vec<char> = Vec::new();
    broadcast use vstd::string::axiom_spec_iter;
    for c in it: s.chars()
        invariant
            res@ == it.seq().take(it.index() as int),
            it.seq() == s@,
    {
        res.push(c);
    }
    res
}

/// The string made of the characters `cs[from..to]`.
pub fn string_of(cs: &Vec<char>, from: usize, to: usize) -> (res: String)
    requires
        from <= to <= cs.len(),
    ensures
        res@ == cs@.subrange(from as int, to as int),
{
    let mut res = String::new();
    let mut i: usize = from;
    while i < to
        invariant
            from <= i <= to <= cs.len(),
            res@ == cs@.subrange(from as int, i as int),
        decreases to - i,
    {
        push_char(&mut res, cs[i]);
        assert(cs@.subrange(from as int, i + 1) =~= cs@.subrange(from as int, i as int).push(cs@[i as int]));
        i = i + 1;
    }
    res
}

proof fn lemma_without_char_step(s: Seq<char>, i: int, c: char)
    requires
        0 <= i < s.len(),
    ensures
        without_char(s.skip(i), c) == (if s[i] == c { Seq::<char>::empty() } else { seq![s[i]] })
            + without_char(s.skip(i + 1), c),
{
    assert(s.skip(i).skip(1) =~= s.skip(i + 1));
}

/// `s` with every `c` removed.
pub fn remove_char(s: &str, c: char) -> (res: String)
    ensures
        res@ == without_char(s@, c),
{
    let cs = chars_of(s);
    let mut res = String::new();
    let mut i: usize = 0;
    assert(cs@.skip(0) =~= cs@);
    while i < cs.len()
        invariant
            i <= cs.len(),
            cs@ == s@,
            without_char(s@, c) == res@ + without_char(cs@.skip(i as int), c),
        decreases cs.len() - i,
    {
        proof { lemma_without_char_step(cs@, i as int, c); }
        let ghost before = res@;
        if cs[i] != c {
            push_char(&mut res, cs[i]);
            assert(res@ =~= before + seq![cs@[i as int]]);
        }
        assert((before + (if cs@[i as int] == c { Seq::<char>::empty() } else { seq![cs@[i as int]] }))
            + without_char(cs@.skip(i + 1), c) =~= before + ((if cs@[i as int] == c { Seq::<char>::empty() } else { seq![cs@[i as int]] })
            + without_char(cs@.skip(i + 1), c)));
        i = i + 1;
    }
    assert(cs@.skip(cs.len() as int) =~= Seq::<char>::empty());
    assert(res@ + Seq::<char>::empty() =~= res@);
    res
}

/// Whether `needle` occurs in `hay` (`str::contains` with a string pattern).
pub fn contains_str(hay: &str, needle: &str) -> (res: bool)
    ensures
        res == has_substring(hay@, needle@),
{
    let h = chars_of(hay);
    let n = chars_of(needle);
    if n.len() > h.len() {
        return false;
    }
    let mut i: usize = 0;
    while i <= h.len() - n.len()
        invariant
            h@ == hay@,
            n@ == needle@,
            n.len() <= h.len(),
            i <= h.len() - n.len() + 1,
            forall|k: int| 0 <= k < i ==> #[trigger] h@.subrange(k, k + n@.len()) != n@,
        decreases h.len() - n.len() + 1 - i,
    {
        let mut j: usize = 0;
        while j < n.len() && h[i + j] == n[j]
            invariant
                h@ == hay@,
                n@ == needle@,
                n.len() <= h.len(),
                i <= h.len() - n.len(),
                j <= n.len(),
                forall|m: int| 0 <= m < j ==> h@[i + m] == n@[m],
            decreases n.len() - j,
        {
            j = j + 1;
        }
        if j == n.len() {
            assert(h@.subrange(i as int, i + n@.len()) =~= n@);
            return true;
        }
        assert(h@.subrange(i as int, i + n@.len())[j as int] != n@[j as int]);
        i = i + 1;
    }
    assert forall|k: int| 0 <= k <= hay@.len() - needle@.len() implies #[trigger] hay@.subrange(k, k + needle@.len()) != needle@ by {
        assert(k < i);
    }
    false
}

/// `s` with every `\"` replaced by `"`.
pub fn replace_escaped_quotes(s: &str) -> (res: String)
    ensures
        res@ == unescape_quotes(s@),
{
    let cs = chars_of(s);
    let mut res = String::new();
    let mut i: usize = 0;
    assert(cs@.skip(0) =~= cs@);
    while i < cs.len()
        invariant
            i <= cs.len(),
            cs@ == s@,
            unescape_quotes(s@) == res@ + unescape_quotes(cs@.skip(i as int)),
        decreases cs.len() - i,
    {
        let ghost before = res@;
        let ghost rest = cs@.skip(i as int);
        if i + 1 < cs.len() && cs[i] == '\\' && cs[i + 1] == '"' {
            push_char(&mut res, '"');
            assert(rest.skip(2) =~= cs@.skip(i + 2));
            assert(res@ + unescape_quotes(cs@.skip(i + 2)) =~= before + (seq!['"'] + unescape_quotes(rest.skip(2))));
            i = i + 2;
        } else {
            push_char(&mut res, cs[i]);
            assert(rest.skip(1) =~= cs@.skip(i + 1));
            assert(res@ + unescape_quotes(cs@.skip(i + 1)) =~= before + (seq![rest[0]] + unescape_quotes(rest.skip(1))));
            i = i + 1;
        }
    }
    assert(cs@.skip(cs.len() as int) =~= Seq::<char>::empty());
    assert(res@ + Seq::<char>::empty() =~= res@);
    res
}

/// Whether `cs[..end]` ends with `suffix`.
pub fn ends_with_at(cs: &Vec<char>, end: usize, suffix: &Vec<char>) -> (res: bool)
    requires
        end <= cs.len(),
    ensures
        res == ends_with(cs@.subrange(0, end as int), suffix@),
{
    let ghost p = cs@.subrange(0, end as int);
    if suffix.len() > end {
        return false;
    }
    let off: usize = end - suffix.len();
    let mut j: usize = 0;
    while j < suffix.len()
        invariant
            end <= cs.len(),
            p == cs@.subrange(0, end as int),
            off + suffix.len() == end,
            j <= suffix.len(),
            forall|m: int| 0 <= m < j ==> cs@[off + m] == suffix@[m],
        decreases suffix.len() - j,
    {
        if cs[off + j] != suffix[j] {
            assert(p.subrange(off as int, p.len() as int)[j as int] != suffix@[j as int]);
            return false;
        }
        j = j + 1;
    }
    assert(p.subrange(off as int, p.len() as int) =~= suffix@);
    true
}

/// Whether `s` ends with `suffix` (`str::ends_with` with a string pattern).
pub fn ends_with_str(s: &str, suffix: &str) -> (res: bool)
    ensures
        res == ends_with(s@, suffix@),
{
    let cs = chars_of(s);
    let sf = chars_of(suffix);
    assert(cs@.subrange(0, cs@.len() as int) =~= cs@);
    ends_with_at(&cs, cs.len(), &sf)
}

/// `s` with `suffix` removed from its end as often as it occurs there
/// (`str::trim_end_matches` with a string pattern).
pub fn trim_end_matches_str(s: &str, suffix: &str) -> (res: String)
    ensures
        res@ == trim_end_all(s@, suffix@),
{
    let cs = chars_of(s);
    let sf = chars_of(suffix);
    let mut end: usize = cs.len();
    assert(cs@.subrange(0, end as int) =~= s@);
    if sf.len() == 0 {
        return string_of(&cs, 0, end);
    }
    while ends_with_at(&cs, end, &sf)
        invariant
            end <= cs.len(),
            sf@ == suffix@,
            sf@.len() > 0,
            trim_end_all(s@, suffix@) == trim_end_all(cs@.subrange(0, end as int), suffix@),
        decreases end,
    {
        let ghost p = cs@.subrange(0, end as int);
        assert(p.subrange(0, p.len() - sf@.len()) =~= cs@.subrange(0, end - sf@.len()));
        end = end - sf.len();
    }
    string_of(&cs, 0, end)
}

/// The decimal digit character of `d`.
fn digit(d: u128) -> (c: char)
    requires
        d < 10,
    ensures
        c == digit_char(d as nat),
{
    if d == 0 { '0' } else if d == 1 { '1' } else if d == 2 { '2' } else if d == 3 { '3' }
    else if d == 4 { '4' } else if d == 5 { '5' } else if d == 6 { '6' } else if d == 7 { '7' }
    else if d == 8 { '8' } else { '9' }
}

fn push_decimal(out: &mut String, n: u128)
    ensures
        final(out)@ == old(out)@ + decimal(n as nat),
    decreases n,
{
    if n < 10 {
        push_char(out, digit(n));
        assert(decimal(n as nat) =~= seq![digit_char(n as nat)]);
    } else {
        push_decimal(out, n / 10);
        push_char(out, digit(n % 10));
        assert(decimal(n as nat) == decimal((n / 10) as nat).push(digit_char((n % 10) as nat)));
    }
}

/// The decimal notation of `n` (`u128::to_string`).
pub fn decimal_string(n: u128) -> (res: String)
    ensures
        res@ == decimal(n as nat),
{
    let mut res = String::new();
    push_decimal(&mut res, n);
    assert(res@ =~= decimal(n as nat));
    res
}

/// Whether `a` and `b` hold the same characters (`==` on string slices).
pub fn str_eq(a: &str, b: &str) -> (res: bool)
    ensures
        res == (a@ == b@),
{
    let x = chars_of(a);
    let y = chars_of(b);
    if x.len() != y.len() {
        return false;
    }
    let mut i: usize = 0;
    while i < x.len()
        invariant
            x.len() == y.len(),
            x@ == a@,
            y@ == b@,
            i <= x.len(),
            forall|k: int| 0 <= k < i ==> x@[k] == y@[k],
        decreases x.len() - i,
    {
        if x[i] != y[i] {
            assert(a@[i as int] != b@[i as int]);
            return false;
        }
        i = i + 1;
    }
    assert(x@ =~= y@);
    true
}

/// No `c` is left once every `c` is removed.
pub proof fn lemma_without_char_absent(s: Seq<char>, c: char)
    ensures
        !without_char(s, c).contains(c),
    decreases s.len(),
{
    if s.len() > 0 {
        lemma_without_char_absent(s.skip(1), c);
        let head = if s[0] == c { Seq::<char>::empty() } else { seq![s[0]] };
        assert forall|i: int| 0 <= i < without_char(s, c).len() implies without_char(s, c)[i] != c by {
            if i >= head.len() {
                assert(without_char(s, c)[i] == without_char(s.skip(1), c)[i - head.len()]);
            }
        }
    }
}

/// Removing `c` twice removes no more than removing it once.
pub proof fn lemma_without_char_idempotent(s: Seq<char>, c: char)
    ensures
        without_char(without_char(s, c), c) == without_char(s, c),
    decreases s.len(),
{
    if s.len() > 0 {
        lemma_without_char_idempotent(s.skip(1), c);
        let rest = without_char(s.skip(1), c);
        if s[0] != c {
            let w = seq![s[0]] + rest;
            assert(w.skip(1) =~= rest);
            assert(without_char(w, c) =~= seq![s[0]] + without_char(rest, c));
        } else {
            assert(Seq::<char>::empty() + rest =~= rest);
        }
    }
}

/// `needle` occurs in `hay` exactly when `hay` splits as some text, then
/// `needle`, then some text.
pub proof fn lemma_has_substring_iff(hay: Seq<char>, needle: Seq<char>)
    ensures
        has_substring(hay, needle) <==> exists|a: Seq<char>, b: Seq<char>| #[trigger] (a + needle + b) == hay,
{
    if has_substring(hay, needle) {
        let i = choose|i: int| 0 <= i <= hay.len() - needle.len() && #[trigger] hay.subrange(i, i + needle.len()) == needle;
        let a = hay.subrange(0, i);
        let b = hay.subrange(i + needle.len(), hay.len() as int);
        assert(a + needle + b =~= hay);
    }
    if exists|a: Seq<char>, b: Seq<char>| #[trigger] (a + needle + b) == hay {
        let (a, b) = choose|a: Seq<char>, b: Seq<char>| #[trigger] (a + needle + b) == hay;
        let i = a.len() as int;
        assert(hay.subrange(i, i + needle.len()) =~= needle);
    }
}

/// Removing `c` from a joined text removes it from each part: nothing but
/// `c` is removed, and the other characters keep their order.
pub proof fn lemma_without_char_concat(x: Seq<char>, y: Seq<char>, c: char)
    ensures
        without_char(x + y, c) == without_char(x, c) + without_char(y, c),
        without_char(seq![c], c) == Seq::<char>::empty(),
        forall|d: char| d != c ==> #[trigger] without_char(seq![d], c) == seq![d],
    decreases x.len(),
{
    if x.len() == 0 {
        assert(x + y =~= y);
        assert(Seq::<char>::empty() + without_char(y, c) =~= without_char(y, c));
    } else {
        lemma_without_char_concat(x.skip(1), y, c);
        assert((x + y).skip(1) =~= x.skip(1) + y);
        assert((x + y)[0] == x[0]);
        let h = if x[0] == c { Seq::<char>::empty() } else { seq![x[0]] };
        assert(h + (without_char(x.skip(1), c) + without_char(y, c)) =~= (h + without_char(x.skip(1), c)) + without_char(y, c));
    }
    assert(seq![c].skip(1) =~= Seq::<char>::empty());
    assert(without_char(Seq::<char>::empty(), c) == Seq::<char>::empty());
    assert(without_char(seq![c], c) =~= Seq::<char>::empty() + without_char(seq![c].skip(1), c));
    assert forall|d: char| d != c implies #[trigger] without_char(seq![d], c) == seq![d] by {
        assert(seq![d].skip(1) =~= Seq::<char>::empty());
        assert(without_char(seq![d], c) =~= seq![d] + without_char(seq![d].skip(1), c));
        assert(seq![d] + Seq::<char>::empty() =~= seq![d]);
    }
}

/// `s` ends with `suffix` exactly when `s` is some text followed by `suffix`.
pub proof fn lemma_ends_with_iff(s: Seq<char>, suffix: Seq<char>)
    ensures
        ends_with(s, suffix) <==> exists|a: Seq<char>| #[trigger] (a + suffix) == s,
{
    if ends_with(s, suffix) {
        let a = s.subrange(0, s.len() - suffix.len());
        assert(a + suffix =~= s);
    }
    if exists|a: Seq<char>| #[trigger] (a + suffix) == s {
        let a = choose|a: Seq<char>| #[trigger] (a + suffix) == s;
        assert(s.subrange(s.len() - suffix.len(), s.len() as int) =~= suffix);
    }
}

/// The number that a text of decimal digits spells.
pub open spec fn decimal_value(s: Seq<char>) -> int
    decreases s.len(),
{
    if s.len() == 0 {
        0
    } else {
        decimal_value(s.drop_last()) * 10 + digit_value(s.last())
    }
}

/// The value of a decimal digit character.
pub open spec fn digit_value(c: char) -> int {
    c as int - '0' as int
}

proof fn lemma_digit_char(k: nat)
    requires
        k < 10,
    ensures
        digit_value(digit_char(k)) == k,
        '0' <= digit_char(k) <= '9',
{
}

/// The decimal notation of `n` is made of the digits `0`-`9`, starts with a
/// non-zero digit unless it is `"0"`, and spells `n`.
pub proof fn lemma_decimal(n: nat)
    ensures
        decimal(n).len() > 0,
        forall|i: int| 0 <= i < decimal(n).len() ==> '0' <= #[trigger] decimal(n)[i] <= '9',
        decimal(n)[0] == '0' ==> n == 0,
        decimal_value(decimal(n)) == n,
    decreases n,
{
    if n < 10 {
        lemma_digit_char(n);
        assert(decimal(n) == seq![digit_char(n)]);
        assert(decimal(n).drop_last() =~= Seq::<char>::empty());
        assert(decimal(n).last() == digit_char(n));
        assert(decimal_value(Seq::<char>::empty()) == 0);
        assert(decimal_value(decimal(n)) == decimal_value(decimal(n).drop_last()) * 10 + digit_value(decimal(n).last()));
    } else {
        lemma_decimal(n / 10);
        lemma_digit_char(n % 10);
        let d = decimal(n / 10);
        let c = digit_char(n % 10);
        assert(decimal(n) == d.push(c));
        assert(decimal(n).drop_last() =~= d);
        assert(decimal(n).last() == c);
        assert(digit_value(c) == n % 10);
        assert((n / 10) * 10 + n % 10 == n) by (nonlinear_arith);
        assert(decimal_value(decimal(n)) == decimal_value(d) * 10 + digit_value(c));
        assert forall|i: int| 0 <= i < decimal(n).len() implies '0' <= #[trigger] decimal(n)[i] <= '9' by {
            if i < d.len() {
                assert(decimal(n)[i] == d[i]);
            }
        }
        assert(decimal(n)[0] == d[0]);
    }
}

} // verus!
