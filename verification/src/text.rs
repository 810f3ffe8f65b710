//! Character-level string operations with exact specifications: search,
//! suffix test, character replacement, prefix before a separator, decimal
//! rendering of counts and right padding.

use vstd::prelude::*;
use vstd::string::StringExecFns;

verus! {

// ---------------------------------------------------------------------------
// Specifications
// ---------------------------------------------------------------------------

/// `pat` occurs in `s` starting at index `i`.
pub open spec fn occurs_at(s: Seq<char>, pat: Seq<char>, i: int) -> bool {
    &&& 0 <= i
    &&& i + pat.len() <= s.len()
    &&& s.subrange(i, i + pat.len()) == pat
}

/// `pat` occurs somewhere in `s` (the empty pattern occurs in every string).
pub open spec fn spec_contains(s: Seq<char>, pat: Seq<char>) -> bool {
    exists|i: int| occurs_at(s, pat, i)
}

/// `s` ends with `suffix`.
pub open spec fn spec_ends_with(s: Seq<char>, suffix: Seq<char>) -> bool {
    &&& suffix.len() <= s.len()
    &&& s.subrange(s.len() - suffix.len(), s.len() as int) == suffix
}

/// `s` with every `from` replaced by `to`.
pub open spec fn spec_replace_char(s: Seq<char>, from: char, to: char) -> Seq<char> {
    s.map_values(|c: char| if c == from { to } else { c })
}

/// The part of `s` before the first `sep`; all of `s` when it holds no `sep`.
pub open spec fn spec_before_first(s: Seq<char>, sep: char) -> Seq<char>
    decreases s.len(),
{
    if s.len() == 0 {
        s
    } else if s[0] == sep {
        Seq::empty()
    } else {
        seq![s[0]] + spec_before_first(s.drop_first(), sep)
    }
}

/// The character of a decimal digit.
pub open spec fn digit_char(d: nat) -> char {
    if d == 0 {
        '0'
    } else if d == 1 {
        '1'
    } else if d == 2 {
        '2'
    } else if d == 3 {
        '3'
    } else if d == 4 {
        '4'
    } else if d == 5 {
        '5'
    } else if d == 6 {
        '6'
    } else if d == 7 {
        '7'
    } else if d == 8 {
        '8'
    } else {
        '9'
    }
}

/// The value of a decimal digit character (0 for any other character).
pub open spec fn digit_value(c: char) -> nat {
    if c == '1' {
        1
    } else if c == '2' {
        2
    } else if c == '3' {
        3
    } else if c == '4' {
        4
    } else if c == '5' {
        5
    } else if c == '6' {
        6
    } else if c == '7' {
        7
    } else if c == '8' {
        8
    } else if c == '9' {
        9
    } else {
        0
    }
}

/// `c` is one of `0`..`9`.
pub open spec fn is_digit(c: char) -> bool {
    c == '0' || c == '1' || c == '2' || c == '3' || c == '4' || c == '5' || c == '6' || c == '7'
        || c == '8' || c == '9'
}

/// The decimal rendering of `n`, without leading zeros (what `{}` prints for an integer).
pub open spec fn spec_decimal(n: nat) -> Seq<char>
    decreases n,
{
    if n < 10 {
        seq![digit_char(n)]
    } else {
        spec_decimal(n / 10).push(digit_char(n % 10))
    }
}

/// The number a string of decimal digits denotes.
pub open spec fn digits_value(s: Seq<char>) -> nat
    decreases s.len(),
{
    if s.len() == 0 {
        0
    } else {
        digits_value(s.drop_last()) * 10 + digit_value(s.last())
    }
}

/// The views of a sequence of strings.
pub open spec fn string_views(s: Seq<String>) -> Seq<Seq<char>> {
    s.map_values(|x: String| x@)
}

/// `n` spaces.
pub open spec fn spaces(n: nat) -> Seq<char> {
    Seq::new(n, |i: int| ' ')
}

/// `s` padded on the right with spaces to at least `width` characters
/// (what `{:<width}` prints for a string).
pub open spec fn spec_pad_right(s: Seq<char>, width: nat) -> Seq<char> {
    if s.len() >= width {
        s
    } else {
        s + spaces((width - s.len()) as nat)
    }
}

/// The lower-case form of `s`, as std's `str::to_lowercase` gives it.
pub uninterp spec fn lowercase(s: Seq<char>) -> Seq<char>;

// ---------------------------------------------------------------------------
// Building strings
// ---------------------------------------------------------------------------

/// Appends one character to a string, with std's `String::push`.
/// Claimed: the new contents are the old contents followed by `c`.
#[verifier::external_body]
pub(crate) fn push_char(s: &mut String, c: char)
    ensures
        final(s)@ == old(s)@.push(c),
{
    s.push(c);
}

/// The lower-case form of `s`, with std's `str::to_lowercase`.
/// Claimed: the result is the named result `lowercase` of `s`; the mapping
/// (Unicode's lower-case property, with its context-dependent cases) is left
/// unstated.
#[verifier::external_body]
pub(crate) fn to_lowercase(s: &str) -> (res: String)
    ensures
        res@ == lowercase(s@),
{
    s.to_lowercase()
}

/// The characters of `s`, in order.
pub fn chars_of(s: &str) -> (res: Vec<char>)
    ensures
        res@ == s@,
{
    let mut res: Vec<char> = Vec::new();
    for c in it: s.chars()
        invariant
            res@ == it.seq().take(it.index() as int),
            it.seq() == s@,
    {
        res.push(c);
    }
    res
}

/// Appends the characters `chars` to `s`.
pub fn push_chars(s: &mut String, chars: &Vec<char>)
    ensures
        final(s)@ == old(s)@ + chars@,
{
    let mut i: usize = 0;
    while i < chars.len()
        invariant
            i <= chars.len(),
            s@ == old(s)@ + chars@.take(i as int),
        decreases chars.len() - i,
    {
        push_char(s, chars[i]);
        i = i + 1;
        assert(chars@.take(i as int) =~= chars@.take((i - 1) as int).push(chars@[i - 1]));
    }
    assert(chars@.take(i as int) =~= chars@);
}

/// A string made of the characters `chars`.
pub fn string_of(chars: &Vec<char>) -> (res: String)
    ensures
        res@ == chars@,
{
    let mut res = String::new();
    push_chars(&mut res, chars);
    assert(res@ =~= chars@);
    res
}

/// The concatenation of `a` and `b`.
pub fn concatenate(a: &str, b: &str) -> (res: String)
    ensures
        res@ == a@ + b@,
{
    let mut res = String::from_str(a);
    res.append(b);
    res
}

// ---------------------------------------------------------------------------
// Search
// ---------------------------------------------------------------------------

fn occurs_at_exec(s: &Vec<char>, pat: &Vec<char>, i: usize) -> (res: bool)
    requires
        i + pat.len() <= s.len(),
    ensures
        res == occurs_at(s@, pat@, i as int),
{
    let mut j: usize = 0;
    while j < pat.len()
        invariant
            j <= pat.len(),
            i + pat.len() <= s.len(),
            forall|k: int| 0 <= k < j ==> s@[i + k] == pat@[k],
        decreases pat.len() - j,
    {
        if s[i + j] != pat[j] {
            assert(s@.subrange(i as int, i + pat.len())[j as int] != pat@[j as int]);
            return false;
        }
        j = j + 1;
    }
    assert(s@.subrange(i as int, i + pat.len()) =~= pat@);
    true
}

/// Whether `pat` occurs in `s`.
pub fn contains_chars(s: &Vec<char>, pat: &Vec<char>) -> (res: bool)
    ensures
        res == spec_contains(s@, pat@),
{
    if pat.len() > s.len() {
        return false;
    }
    let last: usize = s.len() - pat.len();
    let mut i: usize = 0;
    loop
        invariant_except_break
            i <= last,
            forall|k: int| 0 <= k < i ==> !occurs_at(s@, pat@, k),
        invariant
            last == s.len() - pat.len(),
            pat.len() <= s.len(),
        ensures
            forall|k: int| 0 <= k <= last ==> !occurs_at(s@, pat@, k),
        decreases last - i,
    {
        if occurs_at_exec(s, pat, i) {
            return true;
        }
        if i == last {
            break ;
        }
        i = i + 1;
    }
    false
}

/// Whether `pat` occurs in `s` (std's `str::contains` with a string pattern).
pub fn str_contains(s: &str, pat: &str) -> (res: bool)
    ensures
        res == spec_contains(s@, pat@),
{
    let sc = chars_of(s);
    let pc = chars_of(pat);
    contains_chars(&sc, &pc)
}

/// Whether `s` ends with `suffix` (std's `str::ends_with` with a string pattern).
pub fn str_ends_with(s: &str, suffix: &str) -> (res: bool)
    ensures
        res == spec_ends_with(s@, suffix@),
{
    let sc = chars_of(s);
    let pc = chars_of(suffix);
    if pc.len() > sc.len() {
        return false;
    }
    let start: usize = sc.len() - pc.len();
    let res = occurs_at_exec(&sc, &pc, start);
    assert(start + pc.len() == sc.len());
    res
}

// ---------------------------------------------------------------------------
// Transformations
// ---------------------------------------------------------------------------

/// `s` with every `from` replaced by `to` (std's `str::replace` with a one-character
/// pattern and a one-character replacement).
pub fn replace_char(s: &str, from: char, to: char) -> (res: String)
    ensures
        res@ == spec_replace_char(s@, from, to),
{
    let sc = chars_of(s);
    let mut res = String::new();
    let mut i: usize = 0;
    while i < sc.len()
        invariant
            i <= sc.len(),
            sc@ == s@,
            res@ == spec_replace_char(sc@.take(i as int), from, to),
        decreases sc.len() - i,
    {
        let c = sc[i];
        if c == from {
            push_char(&mut res, to);
        } else {
            push_char(&mut res, c);
        }
        i = i + 1;
        assert(spec_replace_char(sc@.take(i as int), from, to) =~= spec_replace_char(
            sc@.take((i - 1) as int),
            from,
            to,
        ).push(if c == from { to } else { c }));
    }
    assert(sc@.take(i as int) =~= sc@);
    res
}

proof fn lemma_before_first_step(s: Seq<char>, sep: char, i: int)
    requires
        0 <= i < s.len(),
        forall|k: int| 0 <= k < i ==> s[k] != sep,
        s[i] != sep,
    ensures
        spec_before_first(s, sep) == s.take(i + 1) + spec_before_first(s.skip(i + 1), sep),
    decreases i,
{
    if i > 0 {
        lemma_before_first_step(s.drop_first(), sep, i - 1);
        assert(s.drop_first().skip(i) =~= s.skip(i + 1));
        assert(s.take(i + 1) =~= seq![s[0]] + s.drop_first().take(i));
    } else {
        assert(s.drop_first() =~= s.skip(1));
        assert(s.take(1) =~= seq![s[0]]);
    }
}

/// The part of `s` before the first `sep`, all of `s` when there is none
/// (what `s.split(sep).next()` yields).
pub fn before_first(s: &str, sep: char) -> (res: String)
    ensures
        res@ == spec_before_first(s@, sep),
{
    let sc = chars_of(s);
    let mut res = String::new();
    let mut i: usize = 0;
    assert(sc@.skip(0) =~= sc@);
    assert(sc@.take(0) + spec_before_first(sc@, sep) =~= spec_before_first(sc@, sep));
    while i < sc.len()
        invariant
            i <= sc.len(),
            sc@ == s@,
            res@ == sc@.take(i as int),
            forall|k: int| 0 <= k < i ==> sc@[k] != sep,
            spec_before_first(sc@, sep) == sc@.take(i as int) + spec_before_first(
                sc@.skip(i as int),
                sep,
            ),
        decreases sc.len() - i,
    {
        let c = sc[i];
        if c == sep {
            assert(sc@.skip(i as int)[0] == sep);
            assert(spec_before_first(sc@.skip(i as int), sep) =~= Seq::<char>::empty());
            assert(sc@.take(i as int) + Seq::<char>::empty() =~= sc@.take(i as int));
            return res;
        }
        proof {
            lemma_before_first_step(sc@, sep, i as int);
        }
        push_char(&mut res, c);
        i = i + 1;
        assert(sc@.take(i as int) =~= sc@.take((i - 1) as int).push(c));
    }
    assert(sc@.skip(i as int) =~= Seq::<char>::empty());
    assert(sc@.take(i as int) =~= sc@);
    assert(sc@ + Seq::<char>::empty() =~= sc@);
    res
}

pub(crate) fn digit_exec(d: usize) -> (c: char)
    requires
        d < 10,
    ensures
        c == digit_char(d as nat),
{
    if d == 0 {
        '0'
    } else if d == 1 {
        '1'
    } else if d == 2 {
        '2'
    } else if d == 3 {
        '3'
    } else if d == 4 {
        '4'
    } else if d == 5 {
        '5'
    } else if d == 6 {
        '6'
    } else if d == 7 {
        '7'
    } else if d == 8 {
        '8'
    } else {
        '9'
    }
}

/// The decimal rendering of `n` (what `{}` prints for an unsigned integer).
pub fn decimal(n: usize) -> (res: String)
    ensures
        res@ == spec_decimal(n as nat),
{
    let mut digits: Vec<char> = Vec::new();
    let mut m: usize = n;
    loop
        invariant_except_break
            spec_decimal(n as nat) == spec_decimal(m as nat) + digits@,
        ensures
            spec_decimal(n as nat) == digits@,
        decreases m,
    {
        let d = digit_exec(m % 10);
        if m < 10 {
            let ghost old_digits = digits@;
            digits.insert(0, d);
            assert(spec_decimal(m as nat) == seq![d]);
            assert(seq![d] + old_digits =~= digits@);
            break ;
        }
        let ghost old_digits = digits@;
        digits.insert(0, d);
        assert(spec_decimal(m as nat) == spec_decimal((m / 10) as nat).push(d));
        assert(spec_decimal((m / 10) as nat).push(d) + old_digits =~= spec_decimal(
            (m / 10) as nat,
        ) + digits@);
        m = m / 10;
    }
    string_of(&digits)
}

/// `s` padded on the right with spaces to at least `width` characters
/// (what `{:<width}` prints for a string).
pub fn pad_right(s: &str, width: usize) -> (res: String)
    ensures
        res@ == spec_pad_right(s@, width as nat),
{
    let sc = chars_of(s);
    let mut res = string_of(&sc);
    if sc.len() >= width {
        return res;
    }
    let mut k: usize = sc.len();
    while k < width
        invariant
            sc@ == s@,
            sc.len() <= k <= width,
            res@ == s@ + spaces((k - sc.len()) as nat),
        decreases width - k,
    {
        push_char(&mut res, ' ');
        k = k + 1;
        assert(s@ + spaces((k - sc.len()) as nat) =~= (s@ + spaces(
            (k - 1 - sc.len()) as nat,
        )).push(' '));
    }
    res
}


// ---------------------------------------------------------------------------
// Laws
// ---------------------------------------------------------------------------

proof fn lemma_digit_roundtrip(d: nat)
    requires
        d < 10,
    ensures
        digit_value(digit_char(d)) == d,
        is_digit(digit_char(d)),
{
}

/// A decimal rendering is made of digits only, and reads back as the number it
/// renders.
pub proof fn lemma_decimal_reads_back(n: nat)
    ensures
        spec_decimal(n).len() > 0,
        forall|i: int| 0 <= i < spec_decimal(n).len() ==> is_digit(#[trigger] spec_decimal(n)[i]),
        digits_value(spec_decimal(n)) == n,
    decreases n,
{
    if n < 10 {
        lemma_digit_roundtrip(n);
        assert(seq![digit_char(n)].drop_last() =~= Seq::<char>::empty());
        assert(digits_value(seq![digit_char(n)]) == digits_value(Seq::<char>::empty()) * 10
            + digit_value(digit_char(n)));
    } else {
        lemma_digit_roundtrip(n % 10);
        lemma_decimal_reads_back(n / 10);
        let d = spec_decimal(n / 10);
        assert(d.push(digit_char(n % 10)).drop_last() =~= d);
        assert forall|i: int| 0 <= i < spec_decimal(n).len() implies is_digit(
            #[trigger] spec_decimal(n)[i],
        ) by {
            if i < d.len() {
                assert(spec_decimal(n)[i] == d[i]);
            }
        }
        assert(digits_value(spec_decimal(n)) == digits_value(d) * 10 + digit_value(
            digit_char(n % 10),
        ));
        assert(n == (n / 10) * 10 + n % 10);
    }
}

/// Replacing a character removes it, whenever the replacement differs from it.
pub proof fn lemma_replace_removes(s: Seq<char>, from: char, to: char)
    requires
        from != to,
    ensures
        !spec_replace_char(s, from, to).contains(from),
        spec_replace_char(s, from, to).len() == s.len(),
{
    let r = spec_replace_char(s, from, to);
    if r.contains(from) {
        let k = choose|k: int| 0 <= k < r.len() && r[k] == from;
        assert(r[k] == (if s[k] == from { to } else { s[k] }));
    }
}

/// The part before the first separator holds no separator and begins the string.
pub proof fn lemma_before_first_is_clean_prefix(s: Seq<char>, sep: char)
    ensures
        !spec_before_first(s, sep).contains(sep),
        spec_before_first(s, sep).len() <= s.len(),
        spec_before_first(s, sep) == s.take(spec_before_first(s, sep).len() as int),
    decreases s.len(),
{
    if s.len() > 0 && s[0] != sep {
        let rest = spec_before_first(s.drop_first(), sep);
        lemma_before_first_is_clean_prefix(s.drop_first(), sep);
        let r = seq![s[0]] + rest;
        if r.contains(sep) {
            let k = choose|k: int| 0 <= k < r.len() && r[k] == sep;
            assert(rest[k - 1] == sep);
        }
        assert(r =~= s.take(r.len() as int));
    } else if s.len() > 0 {
        assert(s.take(0) =~= Seq::<char>::empty());
    } else {
        assert(s.take(0) =~= s);
    }
}

/// The part before the first separator stops exactly there: it is the whole
/// string, or the string continues with the separator.
pub proof fn lemma_before_first_stops_at_sep(s: Seq<char>, sep: char)
    ensures
        spec_before_first(s, sep).len() == s.len() || s[spec_before_first(s, sep).len() as int]
            == sep,
    decreases s.len(),
{
    if s.len() == 0 {
        assert(spec_before_first(s, sep) == s);
    } else if s[0] == sep {
        assert(spec_before_first(s, sep) == Seq::<char>::empty());
    } else {
        lemma_before_first_stops_at_sep(s.drop_first(), sep);
        lemma_before_first_is_clean_prefix(s.drop_first(), sep);
        let rest = spec_before_first(s.drop_first(), sep);
        assert(spec_before_first(s, sep) == seq![s[0]] + rest);
        assert(spec_before_first(s, sep).len() == rest.len() + 1);
        if rest.len() < s.drop_first().len() {
            assert(s[rest.len() + 1int] == s.drop_first()[rest.len() as int]);
        }
    }
}

/// Padding never shortens: the result begins with the text and is at least
/// `width` long, and only spaces are added.
pub proof fn lemma_pad_right_shape(s: Seq<char>, width: nat)
    ensures
        spec_pad_right(s, width).len() >= width,
        spec_pad_right(s, width).len() >= s.len(),
        spec_pad_right(s, width).take(s.len() as int) == s,
        forall|i: int|
            s.len() <= i < spec_pad_right(s, width).len() ==> spec_pad_right(s, width)[i] == ' ',
{
    assert(spec_pad_right(s, width).take(s.len() as int) =~= s);
}

} // verus!
