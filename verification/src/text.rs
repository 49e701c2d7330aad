//! Text as sequences of characters: the vocabulary that the contracts of the
//! other modules are written in, and the functions that compute it.

use vstd::prelude::*;
use vstd::string::*;
use vstd::utf8::*;

verus! {

/// `String::push`: appends the character at the end of the string.
pub assume_specification[ String::push ](s: &mut String, c: char)
    ensures
        final(s)@ == old(s)@.push(c),
;

/// What `String::from_utf8_lossy` makes of `bytes`.
pub uninterp spec fn lossy_text(bytes: Seq<u8>) -> Seq<char>;

/// `String::from_utf8_lossy`: the text that the bytes encode. Bytes that are
/// valid UTF-8 give exactly that text; which replacement characters stand for
/// the invalid sequences of other bytes is left to the name.
#[verifier::external_body]
pub(crate) fn utf8_lossy(bytes: &[u8]) -> (s: String)
    ensures
        s@ == lossy_text(bytes@),
        valid_utf8(bytes@) ==> s@ == decode_utf8(bytes@),
{
    String::from_utf8_lossy(bytes).into_owned()
}

/// What the `{:?}` of a string shows for `s`.
pub uninterp spec fn debug_text(s: Seq<char>) -> Seq<char>;

/// The `Debug` format of `str`: `s` in double quotes, with escapes.
#[verifier::external_body]
pub(crate) fn debug_format(s: &str) -> (r: String)
    ensures
        r@ == debug_text(s@),
{
    format!("{:?}", s)
}

/// The characters with the Unicode property `White_Space`.
pub open spec fn is_space(c: char) -> bool {
    ||| '\u{9}' <= c <= '\u{d}'
    ||| c == ' '
    ||| c == '\u{85}'
    ||| c == '\u{a0}'
    ||| c == '\u{1680}'
    ||| '\u{2000}' <= c <= '\u{200a}'
    ||| c == '\u{2028}'
    ||| c == '\u{2029}'
    ||| c == '\u{202f}'
    ||| c == '\u{205f}'
    ||| c == '\u{3000}'
}

/// `s` without the white space at its end.
pub open spec fn trimmed_end(s: Seq<char>) -> Seq<char>
    decreases s.len(),
{
    if s.len() > 0 && is_space(s.last()) {
        trimmed_end(s.drop_last())
    } else {
        s
    }
}

/// `s` without the white space at its start.
pub open spec fn trimmed_start(s: Seq<char>) -> Seq<char>
    decreases s.len(),
{
    if s.len() > 0 && is_space(s[0]) {
        trimmed_start(s.drop_first())
    } else {
        s
    }
}

/// `s` without the white space at either end.
pub open spec fn trimmed(s: Seq<char>) -> Seq<char> {
    trimmed_start(trimmed_end(s))
}

/// The digit for `d`, in upper case from ten on.
pub open spec fn digit(d: nat) -> char {
    if d < 10 {
        ('0' as nat + d) as char
    } else {
        ('A' as nat + (d - 10)) as char
    }
}

/// `n` in decimal, without leading zeros.
pub open spec fn decimal(n: nat) -> Seq<char>
    decreases n,
{
    if n < 10 {
        seq![digit(n)]
    } else {
        decimal(n / 10).push(digit(n % 10))
    }
}

/// `i` in decimal, with a minus sign where it is negative.
pub open spec fn signed_decimal(i: int) -> Seq<char> {
    if i < 0 {
        seq!['-'] + decimal((-i) as nat)
    } else {
        decimal(i as nat)
    }
}

/// The pieces of `s` between the occurrences of `sep`; always at least one.
pub open spec fn split(s: Seq<char>, sep: char) -> Seq<Seq<char>>
    decreases s.len(),
{
    if s.len() == 0 {
        seq![Seq::empty()]
    } else {
        let before = split(s.drop_last(), sep);
        if s.last() == sep {
            before.push(Seq::empty())
        } else {
            before.drop_last().push(before.last().push(s.last()))
        }
    }
}

/// The pieces in order, with `sep` between each two.
pub open spec fn join(pieces: Seq<Seq<char>>, sep: Seq<char>) -> Seq<char>
    decreases pieces.len(),
{
    if pieces.len() == 0 {
        Seq::empty()
    } else if pieces.len() == 1 {
        pieces[0]
    } else {
        join(pieces.drop_last(), sep) + sep + pieces.last()
    }
}

/// `s` filled up with blanks on the right to `width` characters.
pub open spec fn padded(s: Seq<char>, width: nat) -> Seq<char> {
    s + Seq::new(
        if s.len() < width {
            (width - s.len()) as nat
        } else {
            0
        },
        |i: int| ' ',
    )
}

/// `p` is the beginning of `s`.
pub open spec fn begins_with(s: Seq<char>, p: Seq<char>) -> bool {
    p.len() <= s.len() && s.take(p.len() as int) == p
}

/// The views of the strings of a sequence.
pub open spec fn views(s: Seq<String>) -> Seq<Seq<char>> {
    s.map_values(|x: String| x@)
}

/// The characters of `s`, in order.
pub(crate) fn chars(s: &str) -> (v: Vec<char>)
    ensures
        v@ == s@,
{
    let mut v: Vec<char> = Vec::new();
    for c in it: s.chars()
        invariant
            v@ == it.seq().take(it.index() as int),
            it.seq() == s@,
    {
        v.push(c);
    }
    v
}

/// The string with the characters `v`.
pub(crate) fn from_chars(v: &Vec<char>) -> (s: String)
    ensures
        s@ == v@,
{
    let mut s: String = String::new();
    for i in 0..v.len()
        invariant
            s@ == v@.take(i as int),
    {
        s.push(v[i]);
    }
    s
}

/// Whether two strings hold the same text.
pub(crate) fn same(a: &str, b: &str) -> (r: bool)
    ensures
        r == (a@ == b@),
{
    a.to_owned() == b.to_owned()
}

/// Whether `s` begins with `p`.
pub(crate) fn starts_with(s: &str, p: &str) -> (r: bool)
    ensures
        r == begins_with(s@, p@),
{
    let n = p.unicode_len();
    if n > s.unicode_len() {
        return false;
    }
    same(s.substring_char(0, n), p)
}

/// Whether `c` is white space.
pub(crate) fn is_white(c: char) -> (r: bool)
    ensures
        r == is_space(c),
{
    ('\u{9}' <= c && c <= '\u{d}') || c == ' ' || c == '\u{85}' || c == '\u{a0}' || c
        == '\u{1680}' || ('\u{2000}' <= c && c <= '\u{200a}') || c == '\u{2028}' || c == '\u{2029}'
        || c == '\u{202f}' || c == '\u{205f}' || c == '\u{3000}'
}

/// `s` without the white space at its end.
pub(crate) fn trim_end(s: &str) -> (r: &str)
    ensures
        r@ == trimmed_end(s@),
{
    let v = chars(s);
    let mut n: usize = v.len();
    assert(s@.take(n as int) == s@);
    while n > 0 && is_white(v[n - 1])
        invariant
            n <= v@.len(),
            v@ == s@,
            trimmed_end(s@) == trimmed_end(s@.take(n as int)),
        decreases n,
    {
        assert(s@.take(n as int).drop_last() == s@.take(n - 1));
        n = n - 1;
    }
    s.substring_char(0, n)
}

/// `s` without the white space at either end.
pub(crate) fn trim(s: &str) -> (r: &str)
    ensures
        r@ == trimmed(s@),
{
    let e = trim_end(s);
    let v = chars(e);
    let mut n: usize = 0;
    assert(e@.skip(0) == e@);
    while n < v.len() && is_white(v[n])
        invariant
            n <= v@.len(),
            v@ == e@,
            trimmed_start(e@) == trimmed_start(e@.skip(n as int)),
        decreases v@.len() - n,
    {
        assert(e@.skip(n as int).drop_first() == e@.skip(n + 1));
        n = n + 1;
    }
    e.substring_char(n, v.len())
}

/// The digit for `d`.
pub(crate) fn digit_char(d: u8) -> (c: char)
    requires
        d < 16,
    ensures
        c == digit(d as nat),
{
    if d < 10 {
        (48u8 + d) as char
    } else {
        (55u8 + d) as char
    }
}

/// `n` in decimal.
pub(crate) fn decimal_u64(n: u64) -> (s: String)
    ensures
        s@ == decimal(n as nat),
    decreases n,
{
    if n < 10 {
        let mut s: String = String::new();
        s.push(digit_char(n as u8));
        s
    } else {
        let mut s: String = decimal_u64(n / 10);
        s.push(digit_char((n % 10) as u8));
        s
    }
}

/// `i` in decimal.
pub(crate) fn decimal_i32(i: i32) -> (s: String)
    ensures
        s@ == signed_decimal(i as int),
{
    if i < 0 {
        let m: i64 = -(i as i64);
        let mut s: String = String::new();
        s.push('-');
        s.append(decimal_u64(m as u64).as_str());
        s
    } else {
        decimal_u64(i as u64)
    }
}

/// The pieces of `s` between the occurrences of `sep`.
pub(crate) fn split_chars(s: &Vec<char>, sep: char) -> (r: Vec<Vec<char>>)
    ensures
        r@.map_values(|p: Vec<char>| p@) == split(s@, sep),
{
    let mut r: Vec<Vec<char>> = Vec::new();
    let mut piece: Vec<char> = Vec::new();
    let ghost view_of = |p: Vec<char>| p@;
    for i in 0..s.len()
        invariant
            view_of == (|p: Vec<char>| p@),
            r@.map_values(view_of).push(piece@) == split(s@.take(i as int), sep),
    {
        let ghost before = r@.map_values(view_of);
        assert(s@.take(i + 1).drop_last() == s@.take(i as int));
        if s[i] == sep {
            r.push(piece);
            piece = Vec::new();
            assert(r@.map_values(view_of) == before.push(r@.last()@));
        } else {
            piece.push(s[i]);
            assert(split(s@.take(i as int), sep).drop_last() == before);
        }
    }
    assert(s@.take(s@.len() as int) == s@);
    let ghost before = r@.map_values(view_of);
    r.push(piece);
    assert(r@.map_values(view_of) == before.push(r@.last()@));
    r
}

/// The strings in order, with `sep` between each two.
pub(crate) fn join_strings(pieces: &Vec<String>, sep: &str) -> (r: String)
    ensures
        r@ == join(views(pieces@), sep@),
{
    let mut r: String = String::new();
    for i in 0..pieces.len()
        invariant
            r@ == join(views(pieces@).take(i as int), sep@),
    {
        assert(views(pieces@).take(i + 1).drop_last() == views(pieces@).take(i as int));
        if i > 0 {
            r.append(sep);
        }
        r.append(pieces[i].as_str());
    }
    assert(views(pieces@).take(pieces@.len() as int) == views(pieces@));
    r
}

/// `s` filled up with blanks on the right to `width` characters.
pub(crate) fn pad(s: &str, width: usize) -> (r: String)
    ensures
        r@ == padded(s@, width as nat),
{
    let mut r: String = s.to_owned();
    let mut n: usize = s.unicode_len();
    while n < width
        invariant
            r@.len() == n,
            n == s@.len() || s@.len() <= n <= width,
            r@ == padded(s@, n as nat),
        decreases width - n,
    {
        r.push(' ');
        n = n + 1;
    }
    r
}

/// How often `c` stands in `s`.
pub open spec fn occurrences(s: Seq<char>, c: char) -> nat
    decreases s.len(),
{
    if s.len() == 0 {
        0
    } else {
        occurrences(s.drop_last(), c) + (if s.last() == c {
            1nat
        } else {
            0nat
        })
    }
}

/// The parts of a text hold as many as the text.
pub(crate) proof fn occurrences_add(a: Seq<char>, b: Seq<char>, c: char)
    ensures
        occurrences(a + b, c) == occurrences(a, c) + occurrences(b, c),
    decreases b.len(),
{
    if b.len() == 0 {
        assert(a + b == a);
    } else {
        assert((a + b).drop_last() == a + b.drop_last());
        occurrences_add(a, b.drop_last(), c);
    }
}

/// A text without the character holds none.
pub(crate) proof fn occurrences_none(s: Seq<char>, c: char)
    requires
        forall|i: int| 0 <= i < s.len() ==> s[i] != c,
    ensures
        occurrences(s, c) == 0,
    decreases s.len(),
{
    if s.len() > 0 {
        assert forall|i: int| 0 <= i < s.drop_last().len() implies s.drop_last()[i] != c by {
            assert(s[i] != c);
        }
        occurrences_none(s.drop_last(), c);
    }
}

/// Decimal text holds digits only.
pub(crate) proof fn decimal_is_digits(n: nat, i: int)
    requires
        0 <= i < decimal(n).len(),
    ensures
        '0' <= decimal(n)[i] <= '9',
    decreases n,
{
    if n >= 10 && i < decimal(n).len() - 1 {
        decimal_is_digits(n / 10, i);
    }
}

/// What is left after trimming is a beginning of the text.
pub(crate) proof fn trimmed_end_is_prefix(s: Seq<char>)
    ensures
        trimmed_end(s).len() <= s.len(),
        trimmed_end(s) == s.take(trimmed_end(s).len() as int),
    decreases s.len(),
{
    if s.len() > 0 && is_space(s.last()) {
        trimmed_end_is_prefix(s.drop_last());
        assert(s.take(trimmed_end(s).len() as int) == s.drop_last().take(
            trimmed_end(s).len() as int,
        ));
    } else {
        assert(s.take(s.len() as int) == s);
    }
}

/// White space is what Unicode calls so: no other character is.
pub proof fn white_space_is_that_of_unicode(c: char)
    ensures
        is_space(c) <==> {
            let n = c as int;
            9 <= n <= 13 || n == 0x20 || n == 0x85 || n == 0xa0 || n == 0x1680 || 0x2000 <= n
                <= 0x200a || n == 0x2028 || n == 0x2029 || n == 0x202f || n == 0x205f || n == 0x3000
        },
{
}

/// A text with nothing but white space in it.
pub open spec fn is_blank(s: Seq<char>) -> bool {
    forall|i: int| 0 <= i < s.len() ==> is_space(#[trigger] s[i])
}

/// Trimming takes the white space around a text, all of it and nothing else.
pub proof fn trimming_takes_the_white_space_around(a: Seq<char>, s: Seq<char>, b: Seq<char>)
    requires
        is_blank(a),
        is_blank(b),
        s.len() > 0,
        !is_space(s[0]),
        !is_space(s.last()),
    ensures
        trimmed(a + s + b) == s,
        trimmed_end(s + b) == s,
{
    trimmed_end_drops(a + s, b);
    trimmed_end_drops(s, b);
    assert((a + s).last() == s.last());
    trimmed_start_drops(a, s);
}

proof fn trimmed_end_drops(s: Seq<char>, b: Seq<char>)
    requires
        is_blank(b),
    ensures
        trimmed_end(s + b) == trimmed_end(s),
    decreases b.len(),
{
    if b.len() == 0 {
        assert(s + b =~= s);
    } else {
        assert(is_space(b[b.len() - 1]));
        assert((s + b).drop_last() =~= s + b.drop_last());
        trimmed_end_drops(s, b.drop_last());
    }
}

proof fn trimmed_start_drops(a: Seq<char>, s: Seq<char>)
    requires
        is_blank(a),
    ensures
        trimmed_start(a + s) == trimmed_start(s),
    decreases a.len(),
{
    if a.len() == 0 {
        assert(a + s =~= s);
    } else {
        assert(is_space(a[0]));
        assert((a + s).drop_first() =~= a.drop_first() + s);
        assert forall|i: int| 0 <= i < a.drop_first().len() implies is_space(
            #[trigger] a.drop_first()[i],
        ) by {
            assert(is_space(a[i + 1]));
        }
        trimmed_start_drops(a.drop_first(), s);
    }
}

/// Trimming leaves nothing of a text if and only if the text is blank.
pub proof fn only_blank_texts_trim_to_nothing(s: Seq<char>)
    ensures
        trimmed(s).len() == 0 <==> is_blank(s),
{
    if is_blank(s) {
        let none = Seq::<char>::empty();
        assert(none + s =~= s);
        trimmed_end_drops(none, s);
    } else {
        let (first, last) = ends_of(s);
        let core = s.subrange(first, last + 1);
        assert(s =~= s.take(first) + core + s.skip(last + 1));
        trimming_takes_the_white_space_around(s.take(first), core, s.skip(last + 1));
    }
}

/// The first and the last character of a text that is not blank.
pub(crate) proof fn ends_of(s: Seq<char>) -> (r: (int, int))
    requires
        !is_blank(s),
    ensures
        0 <= r.0 <= r.1 < s.len(),
        !is_space(s[r.0]),
        !is_space(s[r.1]),
        is_blank(s.take(r.0)),
        is_blank(s.skip(r.1 + 1)),
{
    let k = choose|k: int| 0 <= k < s.len() && !is_space(#[trigger] s[k]);
    (first_of(s, k), last_of(s, k))
}

proof fn first_of(s: Seq<char>, k: int) -> (r: int)
    requires
        0 <= k < s.len(),
        !is_space(s[k]),
    ensures
        0 <= r <= k,
        !is_space(s[r]),
        is_blank(s.take(r)),
    decreases k,
{
    if exists|j: int| 0 <= j < k && !is_space(#[trigger] s[j]) {
        let j = choose|j: int| 0 <= j < k && !is_space(#[trigger] s[j]);
        first_of(s, j)
    } else {
        k
    }
}

proof fn last_of(s: Seq<char>, k: int) -> (r: int)
    requires
        0 <= k < s.len(),
        !is_space(s[k]),
    ensures
        k <= r < s.len(),
        !is_space(s[r]),
        is_blank(s.skip(r + 1)),
    decreases s.len() - k,
{
    if exists|j: int| k < j < s.len() && !is_space(#[trigger] s[j]) {
        let j = choose|j: int| k < j < s.len() && !is_space(#[trigger] s[j]);
        last_of(s, j)
    } else {
        assert forall|i: int| 0 <= i < s.skip(k + 1).len() implies is_space(
            #[trigger] s.skip(k + 1)[i],
        ) by {
            assert(is_space(s[k + 1 + i]));
        }
        k
    }
}

/// The number that a row of decimal digits stands for.
pub open spec fn number_read(s: Seq<char>) -> int
    decreases s.len(),
{
    if s.len() == 0 {
        0
    } else {
        number_read(s.drop_last()) * 10 + (s.last() as int - '0' as int)
    }
}

/// A number in decimal reads back as the number. It has digits only, at least
/// one, and no zero before others.
pub proof fn decimal_reads_back(n: nat)
    ensures
        number_read(decimal(n)) == n,
        decimal(n).len() > 0,
        decimal(n).len() > 1 ==> decimal(n)[0] != '0',
        forall|i: int| 0 <= i < decimal(n).len() ==> '0' <= #[trigger] decimal(n)[i] <= '9',
    decreases n,
{
    let s = decimal(n);
    if n < 10 {
        assert(s.drop_last() =~= Seq::<char>::empty());
        assert(number_read(s.drop_last()) == 0);
    } else {
        decimal_reads_back(n / 10);
        assert(s.drop_last() =~= decimal(n / 10));
        assert(s[0] == decimal(n / 10)[0]);
        if decimal(n / 10).len() == 1 {
            assert(decimal(n / 10).drop_last() =~= Seq::<char>::empty());
            assert(number_read(decimal(n / 10).drop_last()) == 0);
        }
    }
    assert forall|i: int| 0 <= i < s.len() implies '0' <= #[trigger] s[i] <= '9' by {
        decimal_is_digits(n, i);
    }
}

/// A number with a sign reads back as the number.
pub proof fn signed_decimal_reads_back(i: int)
    ensures
        i >= 0 ==> signed_decimal(i) == decimal(i as nat),
        i < 0 ==> signed_decimal(i).len() > 0 && signed_decimal(i)[0] == '-' && number_read(
            signed_decimal(i).skip(1),
        ) == -i,
{
    if i < 0 {
        decimal_reads_back((-i) as nat);
        assert(signed_decimal(i).skip(1) =~= decimal((-i) as nat));
    }
}

/// The pieces that a text is split into give the text back when they are joined
/// by what it was split at, and none of them holds it.
pub proof fn splitting_and_joining_agree(s: Seq<char>, sep: char)
    ensures
        join(split(s, sep), seq![sep]) == s,
        forall|i: int|
            0 <= i < split(s, sep).len() ==> occurrences(#[trigger] split(s, sep)[i], sep) == 0,
        split(s, sep).len() == occurrences(s, sep) + 1,
    decreases s.len(),
{
    let p = split(s, sep);
    if s.len() > 0 {
        let before = split(s.drop_last(), sep);
        splitting_and_joining_agree(s.drop_last(), sep);
        if s.last() == sep {
            assert(p.drop_last() =~= before);
            assert(join(p, seq![sep]) =~= s);
        } else {
            let last = before.last().push(s.last());
            assert(p.drop_last() =~= before.drop_last());
            assert(join(p, seq![sep]) =~= s) by {
                let whole = join(before, seq![sep]);
                assert(s =~= whole.push(s.last()));
                if before.len() > 1 {
                    let rest = join(before.drop_last(), seq![sep]) + seq![sep];
                    assert(whole == rest + before.last());
                    assert(join(p, seq![sep]) == rest + last);
                } else {
                    assert(whole == before[0]);
                    assert(join(p, seq![sep]) == p[0]);
                }
            }
            assert(occurrences(last, sep) == 0) by {
                assert(last.drop_last() =~= before.last());
                assert(occurrences(before[before.len() - 1], sep) == 0);
            }
        }
        assert forall|i: int| 0 <= i < p.len() implies occurrences(#[trigger] p[i], sep) == 0 by {
            if i < p.len() - 1 {
                assert(p[i] == before[i]);
            }
        }
    }
}

/// Joining puts the separator between the pieces and nowhere else: what comes
/// last is the last piece.
pub proof fn joining_appends(pieces: Seq<Seq<char>>, last: Seq<char>, sep: Seq<char>)
    ensures
        join(pieces.push(last), sep) == if pieces.len() == 0 {
            last
        } else {
            join(pieces, sep) + sep + last
        },
{
    assert(pieces.push(last).drop_last() =~= pieces);
}

/// A text that is filled up begins with the text, goes on with blanks, and is as
/// wide as asked for, or as the text where that is wider.
pub proof fn filling_up_adds_blanks(s: Seq<char>, width: nat, i: int)
    ensures
        padded(s, width).len() == if s.len() < width {
            width
        } else {
            s.len()
        },
        0 <= i < s.len() ==> padded(s, width)[i] == s[i],
        s.len() <= i < padded(s, width).len() ==> padded(s, width)[i] == ' ',
{
}

/// A text begins with another if and only if it is the other with something
/// behind it.
pub proof fn a_beginning_has_a_rest(s: Seq<char>, p: Seq<char>)
    ensures
        begins_with(s, p) <==> exists|rest: Seq<char>| s == #[trigger] (p + rest),
{
    if begins_with(s, p) {
        assert(s =~= p + s.skip(p.len() as int));
    }
    if exists|rest: Seq<char>| s == #[trigger] (p + rest) {
        let rest = choose|rest: Seq<char>| s == #[trigger] (p + rest);
        assert(s.take(p.len() as int) =~= p);
    }
}

/// The views of strings are the texts of the strings, one by one.
pub proof fn views_are_one_by_one(s: Seq<String>, i: int)
    requires
        0 <= i < s.len(),
    ensures
        views(s).len() == s.len(),
        views(s)[i] == s[i]@,
{
}

} // verus!
