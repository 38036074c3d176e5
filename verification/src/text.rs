//! Character-level helpers shared by the parsers of this crate.

use vstd::prelude::*;

verus! {

/// `c` is one of the ASCII digits `0`..=`9`.
pub open spec fn is_digit(c: char) -> bool {
    '0' <= c && c <= '9'
}

/// The numeric value of an ASCII digit.
pub open spec fn digit_value(c: char) -> nat {
    (c as int - '0' as int) as nat
}

/// Every character of `s` is an ASCII digit.
pub open spec fn all_digits(s: Seq<char>) -> bool {
    forall|i: int| 0 <= i < s.len() ==> is_digit(#[trigger] s[i])
}

/// The number denoted by the decimal digits `s`, read left to right after `acc`.
pub open spec fn value_from(acc: nat, s: Seq<char>) -> nat
    decreases s.len(),
{
    if s.len() == 0 {
        acc
    } else {
        value_from(acc * 10 + digit_value(s[0]), s.drop_first())
    }
}

/// The number that a string of decimal digits denotes.
pub open spec fn digits_value(s: Seq<char>) -> nat {
    value_from(0, s)
}

/// Appending a digit multiplies the value read so far by ten and adds the digit.
pub proof fn lemma_value_from_push(acc: nat, s: Seq<char>, c: char)
    ensures
        value_from(acc, s.push(c)) == value_from(acc, s) * 10 + digit_value(c),
    decreases s.len(),
{
    if s.len() == 0 {
        assert(s.push(c)[0] == c);
        assert(s.push(c).drop_first() =~= Seq::<char>::empty());
        assert(value_from(acc * 10 + digit_value(c), Seq::<char>::empty()) == acc * 10
            + digit_value(c));
    } else {
        assert(s.push(c)[0] == s[0]);
        assert(s.push(c).drop_first() =~= s.drop_first().push(c));
        lemma_value_from_push(acc * 10 + digit_value(s[0]), s.drop_first(), c);
    }
}

/// Reading further digits never decreases the value.
pub proof fn lemma_value_from_grows(acc: nat, s: Seq<char>)
    ensures
        value_from(acc, s) >= acc,
    decreases s.len(),
{
    if s.len() > 0 {
        lemma_value_from_grows(acc * 10 + digit_value(s[0]), s.drop_first());
    }
}

/// `s` with the `sep`-separated pieces it is made of, as `str::split` yields them.
pub open spec fn split_on(s: Seq<char>, sep: char) -> Seq<Seq<char>>
    decreases s.len(),
{
    if s.len() == 0 {
        seq![Seq::<char>::empty()]
    } else {
        let r = split_on(s.drop_last(), sep);
        if s.last() == sep {
            r.push(Seq::<char>::empty())
        } else {
            r.update(r.len() - 1, r.last().push(s.last()))
        }
    }
}

/// `split_on` always yields at least one piece.
pub proof fn lemma_split_nonempty(s: Seq<char>, sep: char)
    ensures
        split_on(s, sep).len() >= 1,
    decreases s.len(),
{
    if s.len() > 0 {
        lemma_split_nonempty(s.drop_last(), sep);
    }
}

/// Text without a separator is a single piece.
pub proof fn lemma_split_no_sep(s: Seq<char>, sep: char)
    requires
        !s.contains(sep),
    ensures
        split_on(s, sep) == seq![s],
    decreases s.len(),
{
    if s.len() > 0 {
        assert(!s.drop_last().contains(sep)) by {
            if s.drop_last().contains(sep) {
                let k = choose|k: int| 0 <= k < s.drop_last().len() && s.drop_last()[k] == sep;
                assert(s[k] == sep);
            }
        }
        lemma_split_no_sep(s.drop_last(), sep);
        assert(s.last() != sep) by {
            assert(s[s.len() - 1] == s.last());
        }
        assert(s.drop_last().push(s.last()) =~= s);
        assert(seq![s.drop_last()].update(0, s.drop_last().push(s.last())) =~= seq![s]);
    } else {
        assert(s =~= Seq::<char>::empty());
    }
}

/// A separator followed by separator-free text adds that text as one more piece.
pub proof fn lemma_split_append(x: Seq<char>, y: Seq<char>, sep: char)
    requires
        !y.contains(sep),
    ensures
        split_on(x + seq![sep] + y, sep) == split_on(x, sep).push(y),
    decreases y.len(),
{
    lemma_split_nonempty(x, sep);
    if y.len() == 0 {
        assert((x + seq![sep] + y).drop_last() =~= x);
        assert(y =~= Seq::<char>::empty());
    } else {
        let s = x + seq![sep] + y;
        assert(s.drop_last() =~= x + seq![sep] + y.drop_last());
        assert(!y.drop_last().contains(sep)) by {
            if y.drop_last().contains(sep) {
                let k = choose|k: int| 0 <= k < y.drop_last().len() && y.drop_last()[k] == sep;
                assert(y[k] == sep);
            }
        }
        lemma_split_append(x, y.drop_last(), sep);
        assert(s.last() == y.last());
        assert(y.last() != sep) by {
            assert(y[y.len() - 1] == y.last());
        }
        assert(y.drop_last().push(y.last()) =~= y);
    }
}

/// The character sequences held by a list of character vectors.
pub open spec fn views(v: Seq<Vec<char>>) -> Seq<Seq<char>> {
    v.map_values(|x: Vec<char>| x@)
}

/// Splits `s` at every `sep`, keeping empty pieces (`str::split`).
pub fn split_chars(s: &Vec<char>, sep: char) -> (r: Vec<Vec<char>>)
    ensures
        views(r@) == split_on(s@, sep),
{
    let mut parts: Vec<Vec<char>> = Vec::new();
    let mut cur: Vec<char> = Vec::new();
    let mut i: usize = 0;
    while i < s.len()
        invariant
            i <= s.len(),
            views(parts@).push(cur@) == split_on(s@.take(i as int), sep),
        decreases s.len() - i,
    {
        let c = s[i];
        let ghost prev = s@.take(i as int);
        assert(s@.take(i + 1).drop_last() =~= prev);
        assert(s@.take(i + 1).last() == c);
        if c == sep {
            let ghost old_parts = views(parts@);
            let done = cur;
            let ghost done_view = done@;
            parts.push(done);
            assert(views(parts@) =~= old_parts.push(done_view));
            cur = Vec::new();
            assert(views(parts@).push(cur@) =~= split_on(s@.take(i + 1), sep));
        } else {
            let ghost before = views(parts@).push(cur@);
            cur.push(c);
            assert(views(parts@).push(cur@) =~= before.update(
                before.len() - 1,
                before.last().push(c),
            ));
        }
        i = i + 1;
    }
    assert(s@.take(s.len() as int) =~= s@);
    let ghost old_parts = views(parts@);
    let ghost cur_view = cur@;
    parts.push(cur);
    assert(views(parts@) =~= old_parts.push(cur_view));
    parts
}

/// The characters of `s`, in order.
pub fn chars_of(s: &str) -> (r: Vec<char>)
    ensures
        r@ == s@,
{
    let mut r: Vec<char> = Vec::new();
    for c in it: s.chars()
        invariant
            it.seq() == s@,
            r@ == it.seq().take(it.index() as int),
    {
        r.push(c);
    }
    r
}

/// Appends one character to a `String` (`String::push`).
#[verifier::external_body]
pub(crate) fn push_char(s: &mut String, c: char)
    ensures
        final(s)@ == old(s)@.push(c),
{
    s.push(c);
}

/// A `String` holding exactly the given characters.
pub fn string_from_chars(cs: &[char]) -> (r: String)
    ensures
        r@ == cs@,
{
    let mut r = String::new();
    let mut i: usize = 0;
    while i < cs.len()
        invariant
            i <= cs.len(),
            r@ == cs@.take(i as int),
        decreases cs.len() - i,
    {
        push_char(&mut r, cs[i]);
        assert(cs@.take(i as int).push(cs@[i as int]) =~= cs@.take(i + 1));
        i = i + 1;
    }
    assert(cs@.take(cs.len() as int) =~= cs@);
    r
}

/// The Unicode `White_Space` property (`char::is_whitespace`).
pub open spec fn is_white_space(c: char) -> bool {
    ('\u{9}' <= c && c <= '\u{d}') || c == ' ' || c == '\u{85}' || c == '\u{a0}' || c
        == '\u{1680}' || ('\u{2000}' <= c && c <= '\u{200a}') || c == '\u{2028}' || c
        == '\u{2029}' || c == '\u{202f}' || c == '\u{205f}' || c == '\u{3000}'
}

/// Whether `c` has the Unicode `White_Space` property, which holds for exactly the
/// characters listed in `is_white_space` (as `char::is_whitespace` answers).
pub(crate) fn char_is_whitespace(c: char) -> (r: bool)
    ensures
        r == is_white_space(c),
{
    ('\u{9}' <= c && c <= '\u{d}') || c == ' ' || c == '\u{85}' || c == '\u{a0}' || c == '\u{1680}'
        || ('\u{2000}' <= c && c <= '\u{200a}') || c == '\u{2028}' || c == '\u{2029}' || c
        == '\u{202f}' || c == '\u{205f}' || c == '\u{3000}'
}

/// The number of leading white-space characters of `s`.
pub open spec fn leading_ws(s: Seq<char>) -> nat
    decreases s.len(),
{
    if s.len() > 0 && is_white_space(s[0]) {
        1 + leading_ws(s.drop_first())
    } else {
        0
    }
}

/// The number of trailing white-space characters of `s`.
pub open spec fn trailing_ws(s: Seq<char>) -> nat
    decreases s.len(),
{
    if s.len() > 0 && is_white_space(s.last()) {
        1 + trailing_ws(s.drop_last())
    } else {
        0
    }
}

/// `s` without leading and trailing white space (`str::trim`).
pub open spec fn trim(s: Seq<char>) -> Seq<char> {
    let t = s.skip(leading_ws(s) as int);
    t.take(t.len() - trailing_ws(t))
}

proof fn lemma_leading_ws_bound(s: Seq<char>)
    ensures
        leading_ws(s) <= s.len(),
    decreases s.len(),
{
    if s.len() > 0 && is_white_space(s[0]) {
        lemma_leading_ws_bound(s.drop_first());
    }
}

proof fn lemma_trailing_ws_bound(s: Seq<char>)
    ensures
        trailing_ws(s) <= s.len(),
    decreases s.len(),
{
    if s.len() > 0 && is_white_space(s.last()) {
        lemma_trailing_ws_bound(s.drop_last());
    }
}

/// Removes leading and trailing white space (`str::trim`).
pub fn trim_chars(s: &[char]) -> (r: Vec<char>)
    ensures
        r@ == trim(s@),
{
    let mut start: usize = 0;
    assert(s@.skip(0) =~= s@);
    while start < s.len() && char_is_whitespace(s[start])
        invariant
            start <= s.len(),
            leading_ws(s@) == start + leading_ws(s@.skip(start as int)),
        decreases s.len() - start,
    {
        assert(s@.skip(start as int)[0] == s@[start as int]);
        assert(s@.skip(start as int).drop_first() =~= s@.skip(start + 1));
        start = start + 1;
    }
    proof {
        if start < s.len() {
            assert(s@.skip(start as int)[0] == s@[start as int]);
        } else {
            assert(s@.skip(start as int) =~= Seq::<char>::empty());
        }
    }
    let ghost t = s@.skip(start as int);
    let mut end: usize = s.len();
    assert(t.take(t.len() as int) =~= t);
    while end > start && char_is_whitespace(s[end - 1])
        invariant
            start <= end <= s.len(),
            t == s@.skip(start as int),
            trailing_ws(t) == (s.len() - end) + trailing_ws(t.take(end - start)),
        decreases end,
    {
        let ghost u = t.take(end - start);
        assert(u.last() == s@[end - 1]);
        assert(u.drop_last() =~= t.take(end - 1 - start));
        end = end - 1;
    }
    proof {
        let u = t.take(end - start);
        if end > start {
            assert(u.last() == s@[end - 1]);
        } else {
            assert(u =~= Seq::<char>::empty());
        }
        lemma_trailing_ws_bound(t);
    }
    let mut r: Vec<char> = Vec::new();
    let mut i: usize = start;
    while i < end
        invariant
            start <= i <= end <= s.len(),
            r@ == s@.subrange(start as int, i as int),
        decreases end - i,
    {
        r.push(s[i]);
        assert(s@.subrange(start as int, i + 1) =~= s@.subrange(start as int, i as int).push(s@[i as int]));
        i = i + 1;
    }
    assert(r@ =~= trim(s@));
    r
}

/// The lowercase form of `s`, as `str::to_lowercase` computes it by the Unicode
/// case mappings.
pub uninterp spec fn lowercase(s: Seq<char>) -> Seq<char>;

/// All characters of `s` are ASCII.
pub open spec fn is_ascii_text(s: Seq<char>) -> bool {
    forall|i: int| 0 <= i < s.len() ==> #[trigger] s[i] <= '\x7f'
}

/// The lowercase of an ASCII character: `A` to `Z` become `a` to `z`, the others stay.
pub open spec fn ascii_lower_char(c: char) -> char {
    if 'A' <= c && c <= 'Z' {
        ((c as u32) + 32) as char
    } else {
        c
    }
}

/// The lowercase of ASCII text, character by character.
pub open spec fn ascii_lower(s: Seq<char>) -> Seq<char> {
    s.map_values(|c: char| ascii_lower_char(c))
}

/// The lowercase form of `s`: for ASCII text the ASCII mapping, otherwise the
/// Unicode mappings (`lowercase`).
pub open spec fn lowered(s: Seq<char>) -> Seq<char> {
    if is_ascii_text(s) {
        ascii_lower(s)
    } else {
        lowercase(s)
    }
}

/// ASCII lowercasing keeps white space as white space and everything else as it was
/// in that respect, and the separator `+` in place.
pub proof fn lemma_ascii_lower_char(c: char)
    ensures
        is_white_space(ascii_lower_char(c)) == is_white_space(c),
        (ascii_lower_char(c) == '+') == (c == '+'),
        c <= '\x7f' ==> ascii_lower_char(c) <= '\x7f',
        ascii_lower_char(ascii_lower_char(c)) == ascii_lower_char(c),
{
}

/// Lowercasing ASCII text twice is lowercasing it once, and keeps it ASCII.
pub proof fn lemma_ascii_lower_idempotent(s: Seq<char>)
    requires
        is_ascii_text(s),
    ensures
        is_ascii_text(ascii_lower(s)),
        ascii_lower(ascii_lower(s)) == ascii_lower(s),
        lowered(s) == ascii_lower(s),
        lowered(ascii_lower(s)) == ascii_lower(s),
{
    assert forall|i: int| 0 <= i < s.len() implies #[trigger] ascii_lower(s)[i] <= '\x7f' by {
        lemma_ascii_lower_char(s[i]);
    }
    assert forall|i: int| 0 <= i < s.len() implies #[trigger] ascii_lower(ascii_lower(s))[i]
        == ascii_lower(s)[i] by {
        lemma_ascii_lower_char(s[i]);
    }
    assert(ascii_lower(ascii_lower(s)) =~= ascii_lower(s));
}

/// Pieces, and their trimmed forms, of ASCII text are ASCII.
pub proof fn lemma_ascii_sub(s: Seq<char>, a: int, b: int)
    requires
        is_ascii_text(s),
        0 <= a <= b <= s.len(),
    ensures
        is_ascii_text(s.subrange(a, b)),
{
    assert forall|i: int| 0 <= i < b - a implies #[trigger] s.subrange(a, b)[i] <= '\x7f' by {
        assert(s.subrange(a, b)[i] == s[a + i]);
    }
}

/// Leading white space is the same after ASCII lowercasing.
proof fn lemma_ascii_leading_ws(s: Seq<char>)
    ensures
        leading_ws(ascii_lower(s)) == leading_ws(s),
    decreases s.len(),
{
    if s.len() > 0 {
        lemma_ascii_lower_char(s[0]);
        assert(ascii_lower(s)[0] == ascii_lower_char(s[0]));
        assert(ascii_lower(s).drop_first() =~= ascii_lower(s.drop_first()));
        lemma_ascii_leading_ws(s.drop_first());
    }
}

/// Trailing white space is the same after ASCII lowercasing.
proof fn lemma_ascii_trailing_ws(s: Seq<char>)
    ensures
        trailing_ws(ascii_lower(s)) == trailing_ws(s),
    decreases s.len(),
{
    if s.len() > 0 {
        lemma_ascii_lower_char(s.last());
        assert(ascii_lower(s).last() == ascii_lower_char(s.last()));
        assert(ascii_lower(s).drop_last() =~= ascii_lower(s.drop_last()));
        lemma_ascii_trailing_ws(s.drop_last());
    }
}

/// Trimming and ASCII lowercasing can be done in either order, and the trimmed
/// form of ASCII text is ASCII.
pub proof fn lemma_ascii_trim(s: Seq<char>)
    ensures
        trim(ascii_lower(s)) == ascii_lower(trim(s)),
        is_ascii_text(s) ==> is_ascii_text(trim(s)),
{
    lemma_leading_ws_bound(s);
    lemma_ascii_leading_ws(s);
    let t = s.skip(leading_ws(s) as int);
    assert(ascii_lower(s).skip(leading_ws(s) as int) =~= ascii_lower(t));
    lemma_ascii_trailing_ws(t);
    lemma_trailing_ws_bound(t);
    assert(ascii_lower(t).take(t.len() - trailing_ws(t)) =~= ascii_lower(t.take(t.len() - trailing_ws(t))));
    if is_ascii_text(s) {
        lemma_ascii_sub(s, leading_ws(s) as int, s.len() - trailing_ws(t));
        assert(trim(s) =~= s.subrange(leading_ws(s) as int, s.len() - trailing_ws(t)));
    }
}

/// Splitting at `+` and ASCII lowercasing can be done in either order, and the
/// pieces of ASCII text are ASCII.
pub proof fn lemma_ascii_split(s: Seq<char>)
    ensures
        split_on(ascii_lower(s), '+') == split_on(s, '+').map_values(|p: Seq<char>| ascii_lower(p)),
        is_ascii_text(s) ==> forall|k: int|
            0 <= k < split_on(s, '+').len() ==> is_ascii_text(#[trigger] split_on(s, '+')[k]),
    decreases s.len(),
{
    lemma_split_nonempty(s, '+');
    if s.len() == 0 {
        assert(ascii_lower(s) =~= Seq::<char>::empty());
        assert(ascii_lower(Seq::<char>::empty()) =~= Seq::<char>::empty());
        assert(split_on(s, '+').map_values(|p: Seq<char>| ascii_lower(p)) =~= seq![Seq::<char>::empty()]);
        assert forall|k: int| 0 <= k < split_on(s, '+').len() implies is_ascii_text(
            #[trigger] split_on(s, '+')[k],
        ) by {
            assert(split_on(s, '+')[k] =~= Seq::<char>::empty());
        }
    } else {
        let d = s.drop_last();
        let c = s.last();
        lemma_ascii_split(d);
        lemma_split_nonempty(d, '+');
        lemma_ascii_lower_char(c);
        assert(ascii_lower(s).drop_last() =~= ascii_lower(d));
        assert(ascii_lower(s).last() == ascii_lower_char(c));
        let r = split_on(d, '+');
        let rm = r.map_values(|p: Seq<char>| ascii_lower(p));
        assert(split_on(ascii_lower(d), '+') == rm);
        if c == '+' {
            assert(ascii_lower(Seq::<char>::empty()) =~= Seq::<char>::empty());
            assert(split_on(s, '+').map_values(|p: Seq<char>| ascii_lower(p)) =~= rm.push(
                Seq::<char>::empty(),
            ));
        } else {
            let last = r.last().push(c);
            assert(ascii_lower(last) =~= rm.last().push(ascii_lower_char(c)));
            assert(split_on(s, '+').map_values(|p: Seq<char>| ascii_lower(p)) =~= rm.update(
                rm.len() - 1,
                rm.last().push(ascii_lower_char(c)),
            ));
        }
        if is_ascii_text(s) {
            assert forall|i: int| 0 <= i < d.len() implies #[trigger] d[i] <= '\x7f' by {
                assert(d[i] == s[i]);
            }
            assert forall|k: int| 0 <= k < split_on(s, '+').len() implies is_ascii_text(
                #[trigger] split_on(s, '+')[k],
            ) by {
                if c == '+' {
                    if k == r.len() {
                        assert(split_on(s, '+')[k] =~= Seq::<char>::empty());
                    } else {
                        assert(split_on(s, '+')[k] == r[k]);
                    }
                } else if k == r.len() - 1 {
                    let last = r.last().push(c);
                    assert(split_on(s, '+')[k] == last);
                    assert(is_ascii_text(r[k]));
                    assert forall|i: int| 0 <= i < last.len() implies #[trigger] last[i] <= '\x7f' by {
                        if i < r.last().len() {
                            assert(last[i] == r.last()[i]);
                        }
                    }
                } else {
                    assert(split_on(s, '+')[k] == r[k]);
                }
            }
        }
    }
}

/// `str::to_lowercase`. The result follows the Unicode `Lowercase` mappings, which
/// are left to the name `lowercase`; on ASCII characters these are the ASCII ones
/// (`A` to `Z` become `a` to `z`, everything else stays), as `char::to_lowercase`
/// documents for the ASCII range.
#[verifier::external_body]
pub(crate) fn str_to_lowercase(s: &str) -> (r: String)
    ensures
        r@ == lowercase(s@),
        is_ascii_text(s@) ==> r@ == ascii_lower(s@),
{
    s.to_lowercase()
}

/// Whether two character sequences are equal.
pub fn chars_equal(a: &[char], b: &[char]) -> (r: bool)
    ensures
        r == (a@ == b@),
{
    if a.len() != b.len() {
        return false;
    }
    let mut i: usize = 0;
    while i < a.len()
        invariant
            a.len() == b.len(),
            i <= a.len(),
            forall|j: int| 0 <= j < i ==> a@[j] == b@[j],
        decreases a.len() - i,
    {
        if a[i] != b[i] {
            return false;
        }
        i = i + 1;
    }
    assert(a@ =~= b@);
    true
}

/// `pat` occurs in `s` at position `i`.
pub open spec fn occurs_at(s: Seq<char>, pat: Seq<char>, i: int) -> bool {
    0 <= i && i + pat.len() <= s.len() && s.subrange(i, i + pat.len()) == pat
}

/// `s` with every occurrence of the non-empty `pat` replaced by `to`, matching left
/// to right without overlaps (`str::replace`).
pub open spec fn replace_all(s: Seq<char>, pat: Seq<char>, to: Seq<char>) -> Seq<char>
    decreases s.len(),
{
    if s.len() == 0 || pat.len() == 0 {
        s
    } else if occurs_at(s, pat, 0) {
        to + replace_all(s.skip(pat.len() as int), pat, to)
    } else {
        seq![s[0]] + replace_all(s.drop_first(), pat, to)
    }
}

/// Replaces every occurrence of the non-empty `pat` in `s` by `to`.
pub fn replace_chars(s: &[char], pat: &[char], to: &[char]) -> (r: Vec<char>)
    requires
        pat.len() > 0,
    ensures
        r@ == replace_all(s@, pat@, to@),
{
    let mut r: Vec<char> = Vec::new();
    let mut i: usize = 0;
    assert(s@.skip(0) =~= s@);
    while i < s.len()
        invariant
            i <= s.len(),
            pat.len() > 0,
            replace_all(s@, pat@, to@) == r@ + replace_all(s@.skip(i as int), pat@, to@),
        decreases s.len() - i,
    {
        let ghost rest = s@.skip(i as int);
        let mut matched = pat.len() <= s.len() - i;
        let mut k: usize = 0;
        while matched && k < pat.len()
            invariant
                k <= pat.len(),
                i < s.len(),
                matched ==> i + pat.len() <= s.len(),
                matched ==> forall|j: int| 0 <= j < k ==> s@[i + j] == pat@[j],
                !matched ==> !occurs_at(rest, pat@, 0),
                rest == s@.skip(i as int),
            decreases pat.len() - k,
        {
            if s[i + k] != pat[k] {
                matched = false;
                assert(rest.subrange(0, pat.len() as int)[k as int] != pat@[k as int]);
            }
            k = k + 1;
        }
        if matched {
            assert(rest.subrange(0, pat.len() as int) =~= pat@);
            assert(occurs_at(rest, pat@, 0));
            let mut j: usize = 0;
            let ghost r0 = r@;
            while j < to.len()
                invariant
                    j <= to.len(),
                    r@ == r0 + to@.take(j as int),
                decreases to.len() - j,
            {
                r.push(to[j]);
                assert(to@.take(j + 1) =~= to@.take(j as int).push(to@[j as int]));
                j = j + 1;
            }
            assert(to@.take(to.len() as int) =~= to@);
            assert(rest.skip(pat.len() as int) =~= s@.skip(i + pat.len()));
            assert(r0 + (to@ + replace_all(rest.skip(pat.len() as int), pat@, to@)) =~= r@
                + replace_all(s@.skip(i + pat.len()), pat@, to@));
            i = i + pat.len();
        } else {
            let ghost r0 = r@;
            r.push(s[i]);
            assert(rest[0] == s@[i as int]);
            assert(rest.drop_first() =~= s@.skip(i + 1));
            assert(r0 + (seq![rest[0]] + replace_all(rest.drop_first(), pat@, to@)) =~= r@
                + replace_all(s@.skip(i + 1), pat@, to@));
            i = i + 1;
        }
    }
    assert(s@.skip(s.len() as int) =~= Seq::<char>::empty());
    assert(r@ + Seq::<char>::empty() =~= r@);
    r
}

/// The text `a` followed by `b`.
pub fn concat_str(a: &str, b: &str) -> (r: String)
    ensures
        r@ == a@ + b@,
{
    let mut cs = chars_of(a);
    let mut rest = chars_of(b);
    cs.append(&mut rest);
    string_from_chars(cs.as_slice())
}

/// A text in which `pat` does not occur is left as it is by replacing `pat`.
pub proof fn lemma_replace_absent(s: Seq<char>, pat: Seq<char>, to: Seq<char>)
    requires
        forall|i: int| !#[trigger] occurs_at(s, pat, i),
    ensures
        replace_all(s, pat, to) == s,
    decreases s.len(),
{
    if s.len() > 0 && pat.len() > 0 {
        assert(!occurs_at(s, pat, 0));
        let t = s.drop_first();
        assert forall|i: int| !#[trigger] occurs_at(t, pat, i) by {
            if occurs_at(t, pat, i) {
                assert(t.subrange(i, i + pat.len()) =~= s.subrange(i + 1, i + 1 + pat.len()));
                assert(occurs_at(s, pat, i + 1));
            }
        };
        lemma_replace_absent(t, pat, to);
        assert(seq![s[0]] + t =~= s);
    }
}

} // verus!
