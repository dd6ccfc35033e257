//! Text primitives shared by the scanners, the rules and the formatters.
//!
//! Text is modelled as `Seq<char>`, the view of `str` and `String`.  Executable
//! code works on `Vec<char>` buffers and converts at the edges.

use vstd::prelude::*;

verus! {

broadcast use vstd::string::group_string_axioms;

/// `String::push` of the standard library: the string afterwards is the string
/// before with `c` appended as its last character.
pub assume_specification[ String::push ](s: &mut String, c: char)
    ensures
        final(s)@ == old(s)@.push(c),
;

/// The characters of a string slice, in order.
pub fn chars_of(s: &str) -> (v: Vec<char>)
    ensures
        v@ == s@,
{
    let mut v: Vec<char> = Vec::new();
    for c in it: s.chars()
        invariant
            it.seq() == s@,
            v@ == it.seq().take(it.index()),
    {
        v.push(c);
        assert(it.seq().take(it.index() + 1) =~= it.seq().take(it.index()).push(c));
    }
    assert(s@.take(s@.len() as int) =~= s@);
    v
}

/// The string made of the given characters, in order.
pub fn string_of(cs: &[char]) -> (s: String)
    ensures
        s@ == cs@,
{
    let mut s = String::new();
    let mut i: usize = 0;
    while i < cs.len()
        invariant
            i <= cs.len(),
            s@ == cs@.take(i as int),
        decreases cs.len() - i,
    {
        s.push(cs[i]);
        assert(cs@.take(i + 1) =~= cs@.take(i as int).push(cs@[i as int]));
        i += 1;
    }
    assert(cs@.take(cs@.len() as int) =~= cs@);
    s
}

/// Appends the characters of `s` to `out`.
pub fn push_str(out: &mut Vec<char>, s: &str)
    ensures
        final(out)@ == old(out)@ + s@,
{
    let ghost before = out@;
    for c in it: s.chars()
        invariant
            it.seq() == s@,
            out@ == before + it.seq().take(it.index()),
    {
        out.push(c);
        assert(before + it.seq().take(it.index() + 1) =~= (before + it.seq().take(
            it.index(),
        )).push(c));
    }
    assert(s@.take(s@.len() as int) =~= s@);
}

/// Appends the characters of `cs` to `out`.
pub fn push_chars(out: &mut Vec<char>, cs: &[char])
    ensures
        final(out)@ == old(out)@ + cs@,
{
    let ghost before = out@;
    let mut i: usize = 0;
    while i < cs.len()
        invariant
            i <= cs.len(),
            out@ == before + cs@.take(i as int),
        decreases cs.len() - i,
    {
        out.push(cs[i]);
        assert(before + cs@.take(i + 1) =~= (before + cs@.take(i as int)).push(cs@[i as int]));
        i += 1;
    }
    assert(cs@.take(cs@.len() as int) =~= cs@);
}

/// Lower case of an ASCII capital letter; every other character is unchanged.
pub open spec fn lower_char(c: char) -> char {
    if 'A' <= c && c <= 'Z' {
        ((c as u8) + 32) as char
    } else {
        c
    }
}

/// `s` with every ASCII capital letter replaced by its lower-case letter.
pub open spec fn lower(s: Seq<char>) -> Seq<char> {
    Seq::new(s.len(), |i: int| lower_char(s[i]))
}

/// The lower-case letter of an ASCII capital letter; any other character as it is.
pub fn to_lower_char(c: char) -> (r: char)
    ensures
        r == lower_char(c),
{
    if 'A' <= c && c <= 'Z' {
        ((c as u8) + 32) as char
    } else {
        c
    }
}

/// A copy of `cs` with the ASCII capital letters lowered.
pub fn to_lower(cs: &[char]) -> (r: Vec<char>)
    ensures
        r@ == lower(cs@),
{
    let mut r: Vec<char> = Vec::new();
    let mut i: usize = 0;
    while i < cs.len()
        invariant
            i <= cs.len(),
            r@.len() == i,
            forall|k: int| 0 <= k < i ==> r@[k] == lower_char(cs@[k]),
        decreases cs.len() - i,
    {
        r.push(to_lower_char(cs[i]));
        i += 1;
    }
    assert(r@ =~= lower(cs@));
    r
}

/// `needle` stands in `hay` at offset `at`.
pub open spec fn matches_at(hay: Seq<char>, needle: Seq<char>, at: int) -> bool {
    &&& 0 <= at
    &&& at + needle.len() <= hay.len()
    &&& forall|k: int| 0 <= k < needle.len() ==> hay[at + k] == needle[k]
}

/// `needle` occurs somewhere in `hay`.
pub open spec fn contains(hay: Seq<char>, needle: Seq<char>) -> bool {
    exists|at: int| matches_at(hay, needle, at)
}

/// Some entry of `needles` occurs in `hay`.
pub open spec fn contains_any(hay: Seq<char>, needles: Seq<Seq<char>>) -> bool {
    exists|k: int| 0 <= k < needles.len() && contains(hay, #[trigger] needles[k])
}

/// Whether `needle` stands in `hay` at the offset `at`.
pub fn has_at(hay: &[char], needle: &[char], at: usize) -> (r: bool)
    requires
        at + needle.len() <= hay.len(),
    ensures
        r == matches_at(hay@, needle@, at as int),
{
    let mut k: usize = 0;
    while k < needle.len()
        invariant
            k <= needle.len(),
            at + needle.len() <= hay.len(),
            forall|j: int| 0 <= j < k ==> hay@[at + j] == needle@[j],
        decreases needle.len() - k,
    {
        if hay[at + k] != needle[k] {
            return false;
        }
        k += 1;
    }
    true
}

/// The first offset at which `needle` stands in `hay`, if any.
pub fn find(hay: &[char], needle: &[char]) -> (r: Option<usize>)
    ensures
        r is Some <==> contains(hay@, needle@),
        r matches Some(at) ==> matches_at(hay@, needle@, at as int) && forall|j: int|
            0 <= j < at ==> !matches_at(hay@, needle@, j),
{
    if needle.len() > hay.len() {
        return None;
    }
    let last: usize = hay.len() - needle.len();
    let mut at: usize = 0;
    while at <= last
        invariant
            at <= last + 1,
            last == hay.len() - needle.len(),
            needle.len() <= hay.len(),
            forall|j: int| 0 <= j < at ==> !matches_at(hay@, needle@, j),
        decreases last + 1 - at,
    {
        if has_at(hay, needle, at) {
            return Some(at);
        }
        at += 1;
    }
    None
}

/// Whether `needle` occurs in `hay`.
pub fn has(hay: &[char], needle: &[char]) -> (r: bool)
    ensures
        r == contains(hay@, needle@),
{
    find(hay, needle).is_some()
}

/// Views of the entries of a table of texts.
pub open spec fn views(table: Seq<Vec<char>>) -> Seq<Seq<char>> {
    Seq::new(table.len(), |i: int| table[i]@)
}

/// Whether one of `needles` occurs in `hay`.
pub fn has_any(hay: &[char], needles: &Vec<Vec<char>>) -> (r: bool)
    ensures
        r == contains_any(hay@, views(needles@)),
{
    let mut k: usize = 0;
    while k < needles.len()
        invariant
            k <= needles.len(),
            forall|j: int| 0 <= j < k ==> !contains(hay@, #[trigger] views(needles@)[j]),
        decreases needles.len() - k,
    {
        if has(hay, needles[k].as_slice()) {
            assert(contains(hay@, views(needles@)[k as int]));
            return true;
        }
        k += 1;
    }
    false
}

/// The White_Space characters of Unicode, which `char::is_whitespace` accepts.
pub open spec fn is_space(c: char) -> bool {
    let n = c as u32;
    ||| 0x09 <= n <= 0x0D
    ||| n == 0x20
    ||| n == 0x85
    ||| n == 0xA0
    ||| n == 0x1680
    ||| 0x2000 <= n <= 0x200A
    ||| n == 0x2028
    ||| n == 0x2029
    ||| n == 0x202F
    ||| n == 0x205F
    ||| n == 0x3000
}

/// Whether `c` is white space.
pub fn is_whitespace(c: char) -> (r: bool)
    ensures
        r == is_space(c),
{
    let n: u32 = c as u32;
    (0x09 <= n && n <= 0x0D) || n == 0x20 || n == 0x85 || n == 0xA0 || n == 0x1680 || (0x2000 <= n
        && n <= 0x200A) || n == 0x2028 || n == 0x2029 || n == 0x202F || n == 0x205F || n == 0x3000
}

/// Number of leading white-space characters of `s`.
pub open spec fn leading_spaces(s: Seq<char>) -> nat
    decreases s.len(),
{
    if s.len() > 0 && is_space(s[0]) {
        1 + leading_spaces(s.drop_first())
    } else {
        0
    }
}

/// Number of trailing white-space characters of `s`.
pub open spec fn trailing_spaces(s: Seq<char>) -> nat
    decreases s.len(),
{
    if s.len() > 0 && is_space(s.last()) {
        1 + trailing_spaces(s.drop_last())
    } else {
        0
    }
}

/// `s` without its leading white space.
pub open spec fn trim_start(s: Seq<char>) -> Seq<char> {
    s.skip(leading_spaces(s) as int)
}

/// `s` without its trailing white space.
pub open spec fn trim_end(s: Seq<char>) -> Seq<char> {
    s.take(s.len() - trailing_spaces(s))
}

/// `s` without leading and trailing white space.
pub open spec fn trim(s: Seq<char>) -> Seq<char> {
    trim_end(trim_start(s))
}

pub proof fn lemma_leading_spaces(s: Seq<char>, n: int)
    requires
        0 <= n <= s.len(),
        forall|k: int| 0 <= k < n ==> is_space(s[k]),
        n == s.len() || !is_space(s[n]),
    ensures
        leading_spaces(s) == n,
    decreases n,
{
    if n > 0 {
        lemma_leading_spaces(s.drop_first(), n - 1);
    }
}

pub proof fn lemma_trailing_spaces(s: Seq<char>, n: int)
    requires
        0 <= n <= s.len(),
        forall|k: int| s.len() - n <= k < s.len() ==> is_space(s[k]),
        n == s.len() || !is_space(s[s.len() - n - 1]),
    ensures
        trailing_spaces(s) == n,
    decreases n,
{
    if n > 0 {
        lemma_trailing_spaces(s.drop_last(), n - 1);
    }
}

pub proof fn lemma_space_counts_bounded(s: Seq<char>)
    ensures
        leading_spaces(s) <= s.len(),
        trailing_spaces(s) <= s.len(),
    decreases s.len(),
{
    if s.len() > 0 {
        lemma_space_counts_bounded(s.drop_first());
        lemma_space_counts_bounded(s.drop_last());
    }
}

/// Offsets `(from, to)` of `cs` without leading and trailing white space.
pub fn trim_bounds(cs: &[char]) -> (r: (usize, usize))
    ensures
        r.0 <= r.1 <= cs.len(),
        cs@.subrange(r.0 as int, r.1 as int) == trim(cs@),
        r.0 == leading_spaces(cs@),
{
    let mut from: usize = 0;
    while from < cs.len() && is_whitespace(cs[from])
        invariant
            from <= cs.len(),
            forall|k: int| 0 <= k < from ==> is_space(cs@[k]),
        decreases cs.len() - from,
    {
        from += 1;
    }
    let mut to: usize = cs.len();
    while to > from && is_whitespace(cs[to - 1])
        invariant
            from <= to <= cs.len(),
            forall|k: int| to <= k < cs.len() ==> is_space(cs@[k]),
        decreases to,
    {
        to -= 1;
    }
    proof {
        lemma_leading_spaces(cs@, from as int);
        let rest = cs@.skip(from as int);
        assert forall|k: int| rest.len() - (cs.len() - to) <= k < rest.len() implies is_space(
            rest[k],
        ) by {
            assert(rest[k] == cs@[k + from]);
        }
        lemma_trailing_spaces(rest, cs.len() - to);
        assert(rest.take(rest.len() - (cs.len() - to)) =~= cs@.subrange(from as int, to as int));
    }
    (from, to)
}

/// A copy of `cs[from..to]`.
pub fn slice_chars(cs: &[char], from: usize, to: usize) -> (r: Vec<char>)
    requires
        from <= to <= cs.len(),
    ensures
        r@ == cs@.subrange(from as int, to as int),
{
    let mut r: Vec<char> = Vec::new();
    let mut i: usize = from;
    while i < to
        invariant
            from <= i <= to <= cs.len(),
            r@ == cs@.subrange(from as int, i as int),
        decreases to - i,
    {
        r.push(cs[i]);
        assert(cs@.subrange(from as int, i + 1) =~= cs@.subrange(from as int, i as int).push(
            cs@[i as int],
        ));
        i += 1;
    }
    r
}

/// A copy of `cs` without the white space around it.
pub fn trimmed(cs: &[char]) -> (r: Vec<char>)
    ensures
        r@ == trim(cs@),
{
    let (from, to) = trim_bounds(cs);
    slice_chars(cs, from, to)
}

/// The digit `d` of a number written in base 10 or, in capitals, base 16.
pub open spec fn digit_char(d: nat) -> char {
    if d < 10 {
        (0x30 + d) as char
    } else {
        (0x41 + d - 10) as char
    }
}

/// `n` in decimal, without sign or padding.
pub open spec fn dec_text(n: nat) -> Seq<char>
    decreases n,
{
    if n < 10 {
        seq![digit_char(n)]
    } else {
        dec_text(n / 10).push(digit_char(n % 10))
    }
}

/// `n` in hexadecimal with capital letters, without prefix or padding.
pub open spec fn hex_text(n: nat) -> Seq<char>
    decreases n,
{
    if n < 16 {
        seq![digit_char(n)]
    } else {
        hex_text(n / 16).push(digit_char(n % 16))
    }
}

/// `s` preceded by as many `fill` as it takes to reach `width` characters.
pub open spec fn pad_left(s: Seq<char>, width: nat, fill: char) -> Seq<char> {
    if s.len() >= width {
        s
    } else {
        Seq::new((width - s.len()) as nat, |i: int| fill) + s
    }
}

/// A signed number in decimal, zero-padded to `width` characters, the sign
/// counting as one of them.
pub open spec fn signed_dec_text(n: int, width: nat) -> Seq<char> {
    if n >= 0 {
        pad_left(dec_text(n as nat), width, '0')
    } else {
        seq!['-'] + pad_left(dec_text((-n) as nat), if width >= 1 {
            (width - 1) as nat
        } else {
            0
        }, '0')
    }
}

/// The character of a digit below sixteen.
pub fn digit(d: u8) -> (c: char)
    requires
        d < 16,
    ensures
        c == digit_char(d as nat),
{
    if d < 10 {
        (0x30 + d) as char
    } else {
        (0x41 + (d - 10)) as char
    }
}

/// Appends `n` in decimal.
pub fn push_dec(out: &mut Vec<char>, n: u64)
    ensures
        final(out)@ == old(out)@ + dec_text(n as nat),
    decreases n,
{
    let ghost before = out@;
    if n >= 10 {
        push_dec(out, n / 10);
    }
    out.push(digit((n % 10) as u8));
    assert(out@ =~= before + dec_text(n as nat));
}

/// Appends `n` in hexadecimal, with capital letters.
pub fn push_hex(out: &mut Vec<char>, n: u64)
    ensures
        final(out)@ == old(out)@ + hex_text(n as nat),
    decreases n,
{
    let ghost before = out@;
    if n >= 16 {
        push_hex(out, n / 16);
    }
    out.push(digit((n % 16) as u8));
    assert(out@ =~= before + hex_text(n as nat));
}

/// Number of digits of `n` in decimal.
pub fn dec_len(n: u64) -> (r: usize)
    ensures
        r == dec_text(n as nat).len(),
        1 <= r <= 20,
    decreases n,
{
    if n >= 10 {
        let r = dec_len(n / 10);
        assert(r <= 19) by {
            lemma_dec_len_bound(n as nat / 10);
        }
        r + 1
    } else {
        1
    }
}

/// Number of digits of `n` in hexadecimal.
pub fn hex_len(n: u64) -> (r: usize)
    ensures
        r == hex_text(n as nat).len(),
        1 <= r <= 16,
    decreases n,
{
    if n >= 16 {
        let r = hex_len(n / 16);
        assert(r <= 15) by {
            lemma_hex_len_bound(n as nat / 16);
        }
        r + 1
    } else {
        1
    }
}

proof fn lemma_dec_len_bound(n: nat)
    requires
        n <= 1844674407370955161,
    ensures
        dec_text(n).len() <= 19,
{
    reveal_with_fuel(dec_text, 20);
}

proof fn lemma_hex_len_bound(n: nat)
    requires
        n <= 0x0FFF_FFFF_FFFF_FFFF,
    ensures
        hex_text(n).len() <= 15,
{
    reveal_with_fuel(hex_text, 16);
}

/// Appends `fill` `count` times.
pub fn push_fill(out: &mut Vec<char>, count: usize, fill: char)
    ensures
        final(out)@ == old(out)@ + Seq::new(count as nat, |i: int| fill),
{
    let ghost before = out@;
    let mut k: usize = 0;
    while k < count
        invariant
            k <= count,
            out@ == before + Seq::new(k as nat, |i: int| fill),
        decreases count - k,
    {
        out.push(fill);
        assert(out@ =~= before + Seq::new((k + 1) as nat, |i: int| fill));
        k += 1;
    }
}

/// Appends `n` in decimal, filled up from the left to `width` characters.
pub fn push_dec_padded(out: &mut Vec<char>, n: u64, width: usize, fill: char)
    ensures
        final(out)@ == old(out)@ + pad_left(dec_text(n as nat), width as nat, fill),
{
    let ghost before = out@;
    let len = dec_len(n);
    if len < width {
        push_fill(out, width - len, fill);
    }
    push_dec(out, n);
    assert(out@ =~= before + pad_left(dec_text(n as nat), width as nat, fill));
}

/// Appends `n` in hexadecimal, filled up from the left to `width` characters.
pub fn push_hex_padded(out: &mut Vec<char>, n: u64, width: usize, fill: char)
    ensures
        final(out)@ == old(out)@ + pad_left(hex_text(n as nat), width as nat, fill),
{
    let ghost before = out@;
    let len = hex_len(n);
    if len < width {
        push_fill(out, width - len, fill);
    }
    push_hex(out, n);
    assert(out@ =~= before + pad_left(hex_text(n as nat), width as nat, fill));
}

/// Appends `n` in decimal, with zeros and, below zero, a sign up to `width`
/// characters.
pub fn push_signed_dec(out: &mut Vec<char>, n: i64, width: usize)
    ensures
        final(out)@ == old(out)@ + signed_dec_text(n as int, width as nat),
{
    let ghost before = out@;
    if n >= 0 {
        push_dec_padded(out, n as u64, width, '0');
    } else {
        out.push('-');
        let magnitude: u64 = (-(n as i128)) as u64;
        push_dec_padded(out, magnitude, if width >= 1 {
            width - 1
        } else {
            0
        }, '0');
        assert(out@ =~= before + signed_dec_text(n as int, width as nat));
    }
}

/// The entries of `parts` with `sep` between each two neighbours.
pub open spec fn join(parts: Seq<Seq<char>>, sep: Seq<char>) -> Seq<char>
    decreases parts.len(),
{
    if parts.len() == 0 {
        Seq::empty()
    } else if parts.len() == 1 {
        parts[0]
    } else {
        join(parts.drop_last(), sep) + sep + parts.last()
    }
}

/// The texts with `sep` between each two neighbours.
pub fn join_texts(parts: &Vec<Vec<char>>, sep: &str) -> (r: Vec<char>)
    ensures
        r@ == join(views(parts@), sep@),
{
    let mut r: Vec<char> = Vec::new();
    let mut i: usize = 0;
    while i < parts.len()
        invariant
            i <= parts.len(),
            r@ == join(views(parts@).take(i as int), sep@),
        decreases parts.len() - i,
    {
        let ghost done = views(parts@).take(i as int);
        let ghost next = views(parts@).take(i + 1);
        assert(next.drop_last() =~= done);
        assert(next.last() == parts@[i as int]@);
        if i > 0 {
            push_str(&mut r, sep);
        }
        push_chars(&mut r, parts[i].as_slice());
        assert(r@ =~= join(next, sep@));
        i += 1;
    }
    assert(views(parts@).take(parts@.len() as int) =~= views(parts@));
    r
}

/// Texts of a list of string slices, in order.
pub open spec fn words(table: Seq<&str>) -> Seq<Seq<char>> {
    Seq::new(table.len(), |i: int| table[i]@)
}

/// A table of texts from a list of string slices.
pub fn table_of(list: Vec<&str>) -> (r: Vec<Vec<char>>)
    ensures
        views(r@) == words(list@),
{
    let mut r: Vec<Vec<char>> = Vec::new();
    let mut i: usize = 0;
    while i < list.len()
        invariant
            i <= list.len(),
            r@.len() == i,
            forall|k: int| 0 <= k < i ==> (#[trigger] r@[k])@ == list@[k]@,
        decreases list.len() - i,
    {
        r.push(chars_of(list[i]));
        i += 1;
    }
    assert(views(r@) =~= words(list@));
    r
}

/// Adds the line `label` followed by `value` to `lines`.
pub fn push_line(lines: &mut Vec<Vec<char>>, label: &str, value: &[char])
    ensures
        views(final(lines)@) == views(old(lines)@).push(label@ + value@),
{
    let mut line: Vec<char> = Vec::new();
    push_str(&mut line, label);
    push_chars(&mut line, value);
    assert(line@ =~= label@ + value@);
    lines.push(line);
    assert(views(lines@) =~= views(old(lines)@).push(label@ + value@));
}

/// The digits of `n` in decimal.
pub fn dec_chars(n: u64) -> (r: Vec<char>)
    ensures
        r@ == dec_text(n as nat),
{
    let mut r: Vec<char> = Vec::new();
    push_dec(&mut r, n);
    assert(r@ =~= dec_text(n as nat));
    r
}

/// The lines with a line feed between each two, or `fallback` when there is
/// no line.
pub open spec fn lines_or(lines: Seq<Seq<char>>, fallback: Seq<char>) -> Seq<char> {
    if lines.len() == 0 {
        fallback
    } else {
        join(lines, "\n"@)
    }
}

/// The lines as one text, or `fallback` when there is none.
pub fn join_lines_or(lines: &Vec<Vec<char>>, fallback: &str) -> (r: String)
    ensures
        r@ == lines_or(views(lines@), fallback@),
{
    if lines.len() == 0 {
        fallback.to_owned()
    } else {
        let text = join_texts(lines, "\n");
        string_of(text.as_slice())
    }
}

/// The line `label` followed by `value`, if there is a value.
pub open spec fn optional_line(label: Seq<char>, value: Option<Seq<char>>) -> Seq<Seq<char>> {
    match value {
        Some(v) => seq![label + v],
        None => Seq::empty(),
    }
}

/// The number in decimal, if there is one.
pub open spec fn number(n: Option<int>) -> Option<Seq<char>> {
    match n {
        Some(v) => Some(dec_text(v as nat)),
        None => None,
    }
}

/// The text of the string, if there is one.
pub open spec fn text(s: Option<String>) -> Option<Seq<char>> {
    match s {
        Some(v) => Some(v@),
        None => None,
    }
}

/// The count as a number, if there is one.
pub open spec fn count(n: Option<usize>) -> Option<int> {
    match n {
        Some(v) => Some(v as int),
        None => None,
    }
}

/// Adds the line `label` followed by the text, if there is a text.
pub fn push_optional_text(lines: &mut Vec<Vec<char>>, label: &str, value: &Option<String>)
    ensures
        views(final(lines)@) == views(old(lines)@) + optional_line(label@, text(*value)),
{
    if let Some(v) = value {
        let cs = chars_of(v.as_str());
        push_line(lines, label, cs.as_slice());
    }
    assert(views(lines@) =~= views(old(lines)@) + optional_line(label@, text(*value)));
}

/// Adds the line `label` followed by the count, if there is a count.
pub fn push_optional_count(lines: &mut Vec<Vec<char>>, label: &str, value: Option<usize>)
    ensures
        views(final(lines)@) == views(old(lines)@) + optional_line(label@, number(count(value))),
{
    if let Some(n) = value {
        let cs = dec_chars(n as u64);
        push_line(lines, label, cs.as_slice());
    }
    assert(views(lines@) =~= views(old(lines)@) + optional_line(label@, number(count(value))));
}

/// Texts of a list of strings, in order.
pub open spec fn texts(v: Seq<String>) -> Seq<Seq<char>> {
    Seq::new(v.len(), |i: int| v[i]@)
}

/// `list` with `item` added at the end, unless it is there already.
pub open spec fn with_text(list: Seq<Seq<char>>, item: Seq<char>) -> Seq<Seq<char>> {
    if list.contains(item) {
        list
    } else {
        list.push(item)
    }
}

/// Adds `item` to `list` unless a string with the same text is there.
pub fn push_once(list: &mut Vec<String>, item: String)
    ensures
        texts(final(list)@) == with_text(texts(old(list)@), item@),
{
    let mut i: usize = 0;
    while i < list.len()
        invariant
            i <= list.len(),
            forall|k: int| 0 <= k < i ==> texts(list@)[k] != item@,
        decreases list.len() - i,
    {
        if list[i] == item {
            assert(texts(list@)[i as int] == item@);
            return ;
        }
        i += 1;
    }
    let ghost before = list@;
    list.push(item);
    assert(texts(list@) =~= texts(before).push(item@));
}

/// The number in decimal, if there is one.
pub open spec fn dec_of(n: Option<u64>) -> Option<Seq<char>> {
    match n {
        Some(v) => Some(dec_text(v as nat)),
        None => None,
    }
}

/// The same number in 64 bits.
pub open spec fn widened(n: Option<u32>) -> Option<u64> {
    match n {
        Some(v) => Some(v as u64),
        None => None,
    }
}

/// The same number in 64 bits.
pub fn widen(n: Option<u32>) -> (r: Option<u64>)
    ensures
        r == widened(n),
{
    match n {
        Some(v) => Some(v as u64),
        None => None,
    }
}

/// Adds the line `label` followed by the number, if there is a number.
pub fn push_optional_number(lines: &mut Vec<Vec<char>>, label: &str, value: Option<u64>)
    ensures
        views(final(lines)@) == views(old(lines)@) + optional_line(label@, dec_of(value)),
{
    if let Some(n) = value {
        let cs = dec_chars(n);
        push_line(lines, label, cs.as_slice());
    }
    assert(views(lines@) =~= views(old(lines)@) + optional_line(label@, dec_of(value)));
}

/// `s`, or `fallback` when there is no `s`.
pub open spec fn text_or(s: Option<String>, fallback: Seq<char>) -> Seq<char> {
    match s {
        Some(v) => v@,
        None => fallback,
    }
}

/// Appends the text of `s`, or `fallback` when there is no `s`.
pub fn push_text_or(out: &mut Vec<char>, s: &Option<String>, fallback: &str)
    ensures
        final(out)@ == old(out)@ + text_or(*s, fallback@),
{
    match s {
        Some(v) => push_str(out, v.as_str()),
        None => push_str(out, fallback),
    }
}

/// A copy of the string, if there is one.
pub fn clone_text(s: &Option<String>) -> (r: Option<String>)
    ensures
        text(r) == text(*s),
{
    match s {
        Some(v) => Some(v.clone()),
        None => None,
    }
}

/// The leading white space of `s` is white space, and what follows it is not.
pub proof fn lemma_leading_spaces_are_spaces(s: Seq<char>)
    ensures
        leading_spaces(s) <= s.len(),
        forall|k: int| 0 <= k < leading_spaces(s) ==> is_space(s[k]),
        leading_spaces(s) == s.len() || !is_space(s[leading_spaces(s) as int]),
    decreases s.len(),
{
    if s.len() > 0 && is_space(s[0]) {
        let rest = s.drop_first();
        lemma_leading_spaces_are_spaces(rest);
        assert forall|k: int| 0 <= k < leading_spaces(s) implies is_space(s[k]) by {
            if k > 0 {
                assert(rest[k - 1] == s[k]);
            }
        }
        if leading_spaces(s) < s.len() {
            assert(rest[leading_spaces(rest) as int] == s[leading_spaces(s) as int]);
        }
    }
}

/// The trailing white space of `s` is white space, and what stands before it
/// is not.
pub proof fn lemma_trailing_spaces_are_spaces(s: Seq<char>)
    ensures
        trailing_spaces(s) <= s.len(),
        forall|k: int| s.len() - trailing_spaces(s) <= k < s.len() ==> is_space(s[k]),
        trailing_spaces(s) == s.len() || !is_space(s[s.len() - trailing_spaces(s) - 1]),
    decreases s.len(),
{
    if s.len() > 0 && is_space(s.last()) {
        let rest = s.drop_last();
        lemma_trailing_spaces_are_spaces(rest);
        assert forall|k: int| s.len() - trailing_spaces(s) <= k < s.len() implies is_space(
            s[k],
        ) by {
            if k < s.len() - 1 {
                assert(rest[k] == s[k]);
            }
        }
        if trailing_spaces(s) < s.len() {
            assert(rest[rest.len() - trailing_spaces(rest) - 1] == s[s.len() - trailing_spaces(s)
                - 1]);
        }
    }
}

/// `s` is white space up to `from` and from `to` on, and what stands between
/// neither begins nor ends with white space.
pub open spec fn trims_to(s: Seq<char>, from: int, to: int) -> bool {
    &&& 0 <= from <= to <= s.len()
    &&& forall|k: int| 0 <= k < from ==> is_space(s[k])
    &&& forall|k: int| to <= k < s.len() ==> is_space(s[k])
    &&& from == to || (!is_space(s[from]) && !is_space(s[to - 1]))
}

/// What is left of `s` without the white space around it is the part of `s`
/// between the white space at its start and the white space at its end.
pub proof fn lemma_trim_is_subrange(s: Seq<char>, from: int, to: int)
    requires
        trims_to(s, from, to),
    ensures
        trim(s) == s.subrange(from, to),
{
    if from == to {
        // Everything is white space: the start takes it all.
        lemma_leading_spaces(s, s.len() as int);
        let rest = s.skip(s.len() as int);
        lemma_space_counts_bounded(rest);
        assert(trim(s) =~= s.subrange(from, to));
    } else {
        lemma_leading_spaces(s, from);
        let rest = s.skip(from);
        assert forall|k: int| rest.len() - (s.len() - to) <= k < rest.len() implies is_space(
            rest[k],
        ) by {
            assert(rest[k] == s[k + from]);
        }
        assert(rest[rest.len() - (s.len() - to) - 1] == s[to - 1]);
        lemma_trailing_spaces(rest, s.len() - to);
        assert(rest.take(rest.len() - (s.len() - to)) =~= s.subrange(from, to));
    }
}

/// Every text has a part that [`trims_to`] describes.
pub proof fn lemma_trim_bounds_exist(s: Seq<char>) -> (r: (int, int))
    ensures
        trims_to(s, r.0, r.1),
{
    lemma_leading_spaces_are_spaces(s);
    lemma_trailing_spaces_are_spaces(s);
    let from = leading_spaces(s) as int;
    if from == s.len() {
        (from, from)
    } else {
        let to = s.len() - trailing_spaces(s);
        assert(from < to) by {
            if to <= from {
                assert(is_space(s[from]));
            }
        }
        (from, to)
    }
}

} // verus!
