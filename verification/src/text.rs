//! Character-level helpers shared by the parsers of this crate.

use vstd::prelude::*;

verus! {

/// Unicode `White_Space` characters, the set that `char::is_whitespace`,
/// `str::trim` and `str::split_whitespace` use.
pub open spec fn is_space(c: char) -> bool {
    let u = c as u32;
    ||| 0x09 <= u <= 0x0D
    ||| u == 0x20
    ||| u == 0x85
    ||| u == 0xA0
    ||| u == 0x1680
    ||| 0x2000 <= u <= 0x200A
    ||| u == 0x2028
    ||| u == 0x2029
    ||| u == 0x202F
    ||| u == 0x205F
    ||| u == 0x3000
}

pub fn char_is_space(c: char) -> (r: bool)
    ensures
        r == is_space(c),
{
    let u = c as u32;
    (0x09 <= u && u <= 0x0D) || u == 0x20 || u == 0x85 || u == 0xA0 || u == 0x1680 || (0x2000
        <= u && u <= 0x200A) || u == 0x2028 || u == 0x2029 || u == 0x202F || u == 0x205F || u
        == 0x3000
}

/// `s` as `{:?}` writes a string: quoted, with special characters
/// escaped.
pub uninterp spec fn str_debug(s: Seq<char>) -> Seq<char>;

/// `format!("{:?}", s)` for a string slice: the `Debug` text of `s`,
/// which depends on `s` alone.
#[verifier::external_body]
pub(crate) fn debug_quoted(s: &str) -> (r: String)
    ensures
        r@ == str_debug(s@),
{
    format!("{s:?}")
}

/// The `Display` text of a `std::io::Error`.
///
/// Nothing is stated of the text: for an error of the operating system
/// it is the system's own message.
#[verifier::external_body]
pub(crate) fn io_error_text(error: &std::io::Error) -> String {
    format!("{error}")
}

/// `String::push`: appends one character to a string.
#[verifier::external_body]
fn string_push(s: &mut String, c: char)
    ensures
        final(s)@ == old(s)@.push(c),
{
    s.push(c);
}

/// The characters of `s`, in order.
pub fn chars_of(s: &str) -> (v: Vec<char>)
    ensures
        v@ == s@,
{
    let n = s.unicode_len();
    let mut v: Vec<char> = Vec::new();
    let mut i: usize = 0;
    while i < n
        invariant
            n == s@.len(),
            i <= n,
            v@ == s@.take(i as int),
        decreases n - i,
    {
        let c = s.get_char(i);
        v.push(c);
        i = i + 1;
        assert(v@ =~= s@.take(i as int));
    }
    assert(v@ =~= s@);
    v
}

/// A string made of the characters `v[from..to]`.
pub fn string_from_range(v: &Vec<char>, from: usize, to: usize) -> (s: String)
    requires
        from <= to <= v@.len(),
    ensures
        s@ == v@.subrange(from as int, to as int),
{
    let mut s = String::new();
    let mut i: usize = from;
    while i < to
        invariant
            from <= i <= to <= v@.len(),
            s@ == v@.subrange(from as int, i as int),
        decreases to - i,
    {
        string_push(&mut s, v[i]);
        i = i + 1;
        assert(s@ =~= v@.subrange(from as int, i as int));
    }
    s
}

/// A string made of all characters of `v`.
pub fn string_from_chars(v: &Vec<char>) -> (s: String)
    ensures
        s@ == v@,
{
    let s = string_from_range(v, 0, v.len());
    assert(v@.subrange(0, v@.len() as int) =~= v@);
    s
}

/// An owned copy of `s`.
pub fn owned(s: &str) -> (r: String)
    ensures
        r@ == s@,
{
    String::from_str(s)
}

/// Whether two strings hold the same characters.
pub fn str_eq(a: &str, b: &str) -> (r: bool)
    ensures
        r == (a@ == b@),
{
    let n = a.unicode_len();
    let m = b.unicode_len();
    if n != m {
        return false;
    }
    let mut i: usize = 0;
    while i < n
        invariant
            n == a@.len(),
            n == b@.len(),
            i <= n,
            a@.take(i as int) == b@.take(i as int),
        decreases n - i,
    {
        if a.get_char(i) != b.get_char(i) {
            return false;
        }
        i = i + 1;
        assert(a@.take(i as int) =~= a@.take(i - 1).push(a@[i - 1]));
        assert(b@.take(i as int) =~= b@.take(i - 1).push(b@[i - 1]));
    }
    assert(a@ =~= a@.take(n as int));
    assert(b@ =~= b@.take(n as int));
    true
}


/// The views of a sequence of strings.
pub open spec fn views(v: Seq<String>) -> Seq<Seq<char>> {
    v.map_values(|s: String| s@)
}

/// The whitespace-separated words of `s`, in order: the pieces that
/// `str::split_whitespace` yields. A word starts at a non-space
/// character that is first in `s` or follows a space.
pub open spec fn words(s: Seq<char>) -> Seq<Seq<char>>
    decreases s.len(),
{
    if s.len() == 0 {
        Seq::empty()
    } else {
        let prev = words(s.drop_last());
        let c = s.last();
        if is_space(c) {
            prev
        } else if s.len() == 1 || is_space(s[s.len() - 2]) {
            prev.push(seq![c])
        } else {
            prev.update(prev.len() - 1, prev.last().push(c))
        }
    }
}

/// Every word is non-empty and holds no space.
pub proof fn lemma_words_shape(s: Seq<char>)
    ensures
        forall|k: int|
            0 <= k < words(s).len() ==> #[trigger] words(s)[k].len() > 0 && forall|j: int|
                0 <= j < words(s)[k].len() ==> !is_space(words(s)[k][j]),
    decreases s.len(),
{
    if s.len() > 0 {
        lemma_words_shape(s.drop_last());
        let prev = words(s.drop_last());
        let c = s.last();
        if !is_space(c) && !(s.len() == 1 || is_space(s[s.len() - 2])) {
            lemma_words_last(s.drop_last());
            let w = prev.last().push(c);
            assert forall|k: int| 0 <= k < words(s).len() implies #[trigger] words(s)[k].len()
                > 0 && forall|j: int| 0 <= j < words(s)[k].len() ==> !is_space(words(s)[k][j]) by {
                if k == prev.len() - 1 {
                    assert(words(s)[k] == w);
                    assert forall|j: int| 0 <= j < w.len() implies !is_space(w[j]) by {
                        if j < w.len() - 1 {
                            assert(w[j] == prev.last()[j]);
                        }
                    }
                }
            }
        }
    }
}

/// A string whose last character is not a space ends inside its last word.
pub proof fn lemma_words_last(s: Seq<char>)
    requires
        s.len() > 0,
        !is_space(s.last()),
    ensures
        words(s).len() > 0,
    decreases s.len(),
{
    if s.len() > 1 && !is_space(s[s.len() - 2]) {
        assert(s.drop_last().last() == s[s.len() - 2]);
        lemma_words_last(s.drop_last());
    }
}

/// `s` holds no whitespace character.
pub open spec fn has_no_space(s: Seq<char>) -> bool {
    forall|j: int| 0 <= j < s.len() ==> !is_space(#[trigger] s[j])
}

/// A non-empty string without whitespace is a single word.
pub proof fn lemma_words_single(x: Seq<char>)
    requires
        x.len() > 0,
        has_no_space(x),
    ensures
        words(x) == seq![x],
    decreases x.len(),
{
    assert(!is_space(x[x.len() - 1]));
    if x.len() == 1 {
        assert(x.drop_last() =~= Seq::<char>::empty());
        assert(words(x.drop_last()) =~= Seq::<Seq<char>>::empty());
        assert(seq![x.last()] =~= x);
        assert(words(x) == Seq::<Seq<char>>::empty().push(seq![x.last()]));
        assert(Seq::<Seq<char>>::empty().push(seq![x.last()]) =~= seq![x]);
    } else {
        let d = x.drop_last();
        assert(has_no_space(d)) by {
            assert forall|j: int| 0 <= j < d.len() implies !is_space(#[trigger] d[j]) by {
                assert(d[j] == x[j]);
            }
        }
        lemma_words_single(d);
        assert(!is_space(x[x.len() - 2]));
        assert(!is_space(x.last()));
        assert(d.push(x.last()) =~= x);
        assert(words(x) == seq![d].update(0, d.push(x.last())));
        assert(seq![d].update(0, d.push(x.last())) =~= seq![x]);
    }
}

/// Words on either side of a space stay apart.
pub proof fn lemma_words_concat_space(a: Seq<char>, b: Seq<char>)
    ensures
        words(a + seq![' '] + b) == words(a) + words(b),
    decreases b.len(),
{
    let s = a + seq![' '] + b;
    if b.len() == 0 {
        assert(s.drop_last() =~= a);
        assert(is_space(s.last()));
        assert(words(b) =~= Seq::<Seq<char>>::empty());
        assert(words(a) + words(b) =~= words(a));
    } else {
        let bd = b.drop_last();
        let c = b.last();
        lemma_words_concat_space(a, bd);
        assert(s.drop_last() =~= a + seq![' '] + bd);
        assert(s.last() == c);
        let prev = words(a) + words(bd);
        if is_space(c) {
            assert(words(b) == words(bd));
        } else {
            assert(s.len() >= 2);
            if b.len() == 1 {
                assert(s[s.len() - 2] == ' ');
                assert(is_space(' '));
                assert(bd =~= Seq::<char>::empty());
                assert(words(s) == prev.push(seq![c]));
                assert(words(b) == words(bd).push(seq![c]));
                assert(prev.push(seq![c]) =~= words(a) + words(bd).push(seq![c]));
            } else {
                assert(s[s.len() - 2] == b[b.len() - 2]);
                if is_space(b[b.len() - 2]) {
                    assert(words(s) == prev.push(seq![c]));
                    assert(words(b) == words(bd).push(seq![c]));
                    assert(prev.push(seq![c]) =~= words(a) + words(bd).push(seq![c]));
                } else {
                    assert(bd.last() == b[b.len() - 2]);
                    lemma_words_last(bd);
                    let wb = words(bd);
                    assert(words(s) == prev.update(prev.len() - 1, prev.last().push(c)));
                    assert(words(b) == wb.update(wb.len() - 1, wb.last().push(c)));
                    assert(prev.last() == wb.last());
                    assert(prev.update(prev.len() - 1, prev.last().push(c)) =~= words(a)
                        + wb.update(wb.len() - 1, wb.last().push(c)));
                }
            }
        }
    }
}

/// The words of each part, part after part.
pub open spec fn words_of_parts(parts: Seq<Seq<char>>) -> Seq<Seq<char>>
    decreases parts.len(),
{
    if parts.len() == 0 {
        Seq::empty()
    } else {
        words_of_parts(parts.drop_last()) + words(parts.last())
    }
}

/// Joining parts with single spaces keeps their words apart.
pub proof fn lemma_words_join_space(parts: Seq<Seq<char>>)
    ensures
        words(join_with(parts, seq![' '])) == words_of_parts(parts),
    decreases parts.len(),
{
    if parts.len() == 1 {
        assert(parts.drop_last() =~= Seq::<Seq<char>>::empty());
        assert(words_of_parts(parts.drop_last()) =~= Seq::<Seq<char>>::empty());
        assert(words_of_parts(parts) =~= words(parts[0]));
    } else if parts.len() > 1 {
        lemma_words_join_space(parts.drop_last());
        lemma_words_concat_space(join_with(parts.drop_last(), seq![' ']), parts.last());
    }
}

/// A part that is a single word stands at a known index among the words
/// of all parts.
pub proof fn lemma_words_of_parts_index(parts: Seq<Seq<char>>, i: int)
    requires
        0 <= i < parts.len(),
        parts[i].len() > 0,
        has_no_space(parts[i]),
    ensures
        words_of_parts(parts.take(i)).len() < words_of_parts(parts).len(),
        words_of_parts(parts)[words_of_parts(parts.take(i)).len() as int] == parts[i],
    decreases parts.len(),
{
    lemma_words_single(parts[i]);
    if i == parts.len() - 1 {
        assert(parts.take(i) =~= parts.drop_last());
    } else {
        let d = parts.drop_last();
        assert(d.take(i) =~= parts.take(i));
        assert(d[i] == parts[i]);
        lemma_words_of_parts_index(d, i);
    }
}

/// The words of `s`, as `str::split_whitespace` yields them.
pub fn split_whitespace(s: &str) -> (r: Vec<String>)
    ensures
        views(r@) == words(s@),
{
    let cs = chars_of(s);
    let n = cs.len();
    let mut out: Vec<String> = Vec::new();
    let mut start: usize = 0;
    let mut in_word = false;
    let mut i: usize = 0;
    while i < n
        invariant
            n == cs@.len(),
            cs@ == s@,
            i <= n,
            in_word == (i > 0 && !is_space(cs@[i - 1])),
            in_word ==> start < i,
            words(cs@.take(i as int)) == views(out@) + (if in_word {
                seq![cs@.subrange(start as int, i as int)]
            } else {
                Seq::<Seq<char>>::empty()
            }),
        decreases n - i,
    {
        let c = cs[i];
        let sp = char_is_space(c);
        let ghost pre = cs@.take(i as int);
        let ghost cur = cs@.take(i + 1);
        assert(cur.drop_last() =~= pre);
        assert(cur.last() == c);
        if sp {
            if in_word {
                let ghost before = out@;
                let w = string_from_range(&cs, start, i);
                out.push(w);
                assert(views(out@) =~= views(before).push(cs@.subrange(start as int, i as int)))
                    by {
                    assert(out@.drop_last() =~= before);
                }
            }
            in_word = false;
            assert(words(cur) == words(pre));
        } else {
            if !in_word {
                start = i;
                assert(cs@.subrange(start as int, i + 1) =~= seq![c]);
                if i > 0 {
                    assert(cur[cur.len() - 2] == cs@[i - 1]);
                }
            } else {
                assert(cur[cur.len() - 2] == cs@[i - 1]);
                assert(cs@.subrange(start as int, i + 1) =~= cs@.subrange(
                    start as int,
                    i as int,
                ).push(c));
            }
            in_word = true;
        }
        i = i + 1;
        assert(words(cs@.take(i as int)) =~= views(out@) + (if in_word {
            seq![cs@.subrange(start as int, i as int)]
        } else {
            Seq::<Seq<char>>::empty()
        }));
    }
    if in_word {
        let ghost before = out@;
        let w = string_from_range(&cs, start, n);
        out.push(w);
        assert(views(out@) =~= views(before).push(cs@.subrange(start as int, n as int))) by {
            assert(out@.drop_last() =~= before);
        }
    }
    assert(cs@.take(n as int) =~= s@);
    assert(views(out@) =~= words(s@));
    out
}


/// The non-empty pieces of `s` between occurrences of `sep`, in order:
/// what `str::split(sep)` yields once empty pieces are dropped.
pub open spec fn pieces(s: Seq<char>, sep: char) -> Seq<Seq<char>>
    decreases s.len(),
{
    if s.len() == 0 {
        Seq::empty()
    } else {
        let prev = pieces(s.drop_last(), sep);
        let c = s.last();
        if c == sep {
            prev
        } else if s.len() == 1 || s[s.len() - 2] == sep {
            prev.push(seq![c])
        } else {
            prev.update(prev.len() - 1, prev.last().push(c))
        }
    }
}

/// The non-empty pieces of `s` between occurrences of `sep`.
pub fn split_nonempty(s: &str, sep: char) -> (r: Vec<String>)
    ensures
        views(r@) == pieces(s@, sep),
{
    let cs = chars_of(s);
    let n = cs.len();
    let mut out: Vec<String> = Vec::new();
    let mut start: usize = 0;
    let mut in_word = false;
    let mut i: usize = 0;
    while i < n
        invariant
            n == cs@.len(),
            cs@ == s@,
            i <= n,
            in_word == (i > 0 && cs@[i - 1] != sep),
            in_word ==> start < i,
            pieces(cs@.take(i as int), sep) == views(out@) + (if in_word {
                seq![cs@.subrange(start as int, i as int)]
            } else {
                Seq::<Seq<char>>::empty()
            }),
        decreases n - i,
    {
        let c = cs[i];
        let sp = c == sep;
        let ghost pre = cs@.take(i as int);
        let ghost cur = cs@.take(i + 1);
        assert(cur.drop_last() =~= pre);
        assert(cur.last() == c);
        if sp {
            if in_word {
                let ghost before = out@;
                let w = string_from_range(&cs, start, i);
                out.push(w);
                assert(views(out@) =~= views(before).push(cs@.subrange(start as int, i as int)))
                    by {
                    assert(out@.drop_last() =~= before);
                }
            }
            in_word = false;
            assert(pieces(cur, sep) == pieces(pre, sep));
        } else {
            if !in_word {
                start = i;
                assert(cs@.subrange(start as int, i + 1) =~= seq![c]);
                if i > 0 {
                    assert(cur[cur.len() - 2] == cs@[i - 1]);
                }
            } else {
                assert(cur[cur.len() - 2] == cs@[i - 1]);
                assert(cs@.subrange(start as int, i + 1) =~= cs@.subrange(
                    start as int,
                    i as int,
                ).push(c));
            }
            in_word = true;
        }
        i = i + 1;
        assert(pieces(cs@.take(i as int), sep) =~= views(out@) + (if in_word {
            seq![cs@.subrange(start as int, i as int)]
        } else {
            Seq::<Seq<char>>::empty()
        }));
    }
    if in_word {
        let ghost before = out@;
        let w = string_from_range(&cs, start, n);
        out.push(w);
        assert(views(out@) =~= views(before).push(cs@.subrange(start as int, n as int))) by {
            assert(out@.drop_last() =~= before);
        }
    }
    assert(cs@.take(n as int) =~= s@);
    assert(views(out@) =~= pieces(s@, sep));
    out
}


/// `parts` joined with `sep` between neighbours, as `[T]::join` builds it.
pub open spec fn join_with(parts: Seq<Seq<char>>, sep: Seq<char>) -> Seq<char>
    decreases parts.len(),
{
    if parts.len() == 0 {
        Seq::empty()
    } else if parts.len() == 1 {
        parts[0]
    } else {
        join_with(parts.drop_last(), sep) + sep + parts.last()
    }
}

/// Joining at least one part ends with the last part.
pub proof fn lemma_join_ends_with_last(parts: Seq<Seq<char>>, sep: Seq<char>)
    requires
        parts.len() > 0,
    ensures
        join_with(parts, sep).len() >= parts.last().len(),
{
}

/// `parts[from..]` joined with `sep`.
pub fn join_from(parts: &Vec<String>, from: usize, sep: &str) -> (r: String)
    requires
        from <= parts@.len(),
    ensures
        r@ == join_with(views(parts@).skip(from as int), sep@),
{
    let mut r = String::new();
    let mut i: usize = from;
    while i < parts.len()
        invariant
            from <= i <= parts@.len(),
            r@ == join_with(views(parts@).subrange(from as int, i as int), sep@),
        decreases parts@.len() - i,
    {
        let ghost prev = views(parts@).subrange(from as int, i as int);
        let ghost next = views(parts@).subrange(from as int, i + 1);
        assert(next.drop_last() =~= prev);
        assert(next.last() == parts@[i as int]@);
        if i == from {
            r = parts[i].clone();
        } else {
            r.append(sep);
            r.append(parts[i].as_str());
        }
        i = i + 1;
    }
    assert(views(parts@).subrange(from as int, parts@.len() as int) =~= views(parts@).skip(
        from as int,
    ));
    r
}

pub open spec fn is_digit(c: char) -> bool {
    '0' <= c <= '9'
}

pub open spec fn digit_value(c: char) -> nat {
    ((c as u32) - ('0' as u32)) as nat
}

/// The number a string of decimal digits denotes.
pub open spec fn digits_value(s: Seq<char>) -> nat
    decreases s.len(),
{
    if s.len() == 0 {
        0
    } else {
        digits_value(s.drop_last()) * 10 + digit_value(s.last())
    }
}

pub open spec fn all_digits(s: Seq<char>) -> bool {
    forall|i: int| 0 <= i < s.len() ==> is_digit(#[trigger] s[i])
}

/// What `u32::from_str` accepts: an optional `+`, then one or more
/// decimal digits whose value fits in a `u32`.
pub open spec fn parse_u32_spec(s: Seq<char>) -> Option<u32> {
    let d = if s.len() > 0 && s[0] == '+' {
        s.drop_first()
    } else {
        s
    };
    if d.len() > 0 && all_digits(d) && digits_value(d) <= u32::MAX {
        Some(digits_value(d) as u32)
    } else {
        None
    }
}

proof fn lemma_digits_value_prefix_le(d: Seq<char>, k: int)
    requires
        0 <= k <= d.len(),
    ensures
        digits_value(d.take(k)) <= digits_value(d),
    decreases d.len() - k,
{
    if k < d.len() {
        lemma_digits_value_prefix_le(d, k + 1);
        assert(d.take(k + 1).drop_last() =~= d.take(k));
    } else {
        assert(d.take(k) =~= d);
    }
}

/// Parses a decimal `u32` as `u32::from_str` does.
pub fn parse_u32(s: &str) -> (r: Option<u32>)
    ensures
        r == parse_u32_spec(s@),
{
    let cs = chars_of(s);
    let n = cs.len();
    let mut i: usize = 0;
    if n > 0 && cs[0] == '+' {
        i = 1;
    }
    let ghost d = if s@.len() > 0 && s@[0] == '+' {
        s@.drop_first()
    } else {
        s@
    };
    assert(d =~= cs@.skip(i as int));
    if i == n {
        return None;
    }
    let first = i;
    let mut val: u64 = 0;
    while i < n
        invariant
            cs@ == s@,
            n == cs@.len(),
            first <= i <= n,
            d == cs@.skip(first as int),
            d == (if s@.len() > 0 && s@[0] == '+' {
                s@.drop_first()
            } else {
                s@
            }),
            all_digits(cs@.subrange(first as int, i as int)),
            val == digits_value(cs@.subrange(first as int, i as int)),
            val <= u32::MAX,
        decreases n - i,
    {
        let c = cs[i];
        assert(d[i - first] == c);
        if !('0' <= c && c <= '9') {
            assert(!is_digit(d[i - first]));
            return None;
        }
        let dv = (c as u32 - '0' as u32) as u64;
        let ghost pre = cs@.subrange(first as int, i as int);
        let ghost nxt = cs@.subrange(first as int, i + 1);
        assert(nxt.drop_last() =~= pre);
        assert(nxt.last() == c);
        assert(digits_value(nxt) == digits_value(pre) * 10 + dv);
        val = val * 10 + dv;
        i = i + 1;
        if val > u32::MAX as u64 {
            proof {
                if all_digits(d) {
                    assert(nxt =~= d.take(i - first));
                    assert(digits_value(nxt) == val);
                    lemma_digits_value_prefix_le(d, i - first);
                }
            }
            return None;
        }
    }
    assert(cs@.subrange(first as int, n as int) =~= d);
    Some(val as u32)
}


/// `s` without its leading whitespace.
pub open spec fn trim_start(s: Seq<char>) -> Seq<char>
    decreases s.len(),
{
    if s.len() > 0 && is_space(s[0]) {
        trim_start(s.drop_first())
    } else {
        s
    }
}

/// `s` without its trailing whitespace.
pub open spec fn trim_end(s: Seq<char>) -> Seq<char>
    decreases s.len(),
{
    if s.len() > 0 && is_space(s.last()) {
        trim_end(s.drop_last())
    } else {
        s
    }
}

/// `s` without leading and trailing whitespace, as `str::trim` gives it.
pub open spec fn trimmed(s: Seq<char>) -> Seq<char> {
    trim_end(trim_start(s))
}

proof fn lemma_trim_start_skip(s: Seq<char>, i: int)
    requires
        0 <= i <= s.len(),
        forall|k: int| 0 <= k < i ==> is_space(#[trigger] s[k]),
    ensures
        trim_start(s) == trim_start(s.skip(i)),
    decreases i,
{
    if i > 0 {
        assert(s.drop_first().skip(i - 1) =~= s.skip(i));
        assert forall|k: int| 0 <= k < i - 1 implies is_space(#[trigger] s.drop_first()[k]) by {
            assert(s.drop_first()[k] == s[k + 1]);
        }
        lemma_trim_start_skip(s.drop_first(), i - 1);
    } else {
        assert(s.skip(0) =~= s);
    }
}

proof fn lemma_trim_end_take(s: Seq<char>, j: int)
    requires
        0 <= j <= s.len(),
        forall|k: int| j <= k < s.len() ==> is_space(#[trigger] s[k]),
    ensures
        trim_end(s) == trim_end(s.take(j)),
    decreases s.len() - j,
{
    if j < s.len() {
        assert(s.drop_last().take(j) =~= s.take(j));
        lemma_trim_end_take(s.drop_last(), j);
    } else {
        assert(s.take(j) =~= s);
    }
}

/// `s` without leading and trailing whitespace.
pub fn trim(s: &str) -> (r: String)
    ensures
        r@ == trimmed(s@),
{
    let cs = chars_of(s);
    let n = cs.len();
    let mut i: usize = 0;
    while i < n && char_is_space(cs[i])
        invariant
            cs@ == s@,
            n == cs@.len(),
            i <= n,
            forall|k: int| 0 <= k < i ==> is_space(#[trigger] cs@[k]),
        decreases n - i,
    {
        i = i + 1;
    }
    proof {
        lemma_trim_start_skip(s@, i as int);
    }
    let mut j: usize = n;
    while j > i && char_is_space(cs[j - 1])
        invariant
            cs@ == s@,
            n == cs@.len(),
            i <= j <= n,
            forall|k: int| j <= k < n ==> is_space(#[trigger] cs@[k]),
        decreases j - i,
    {
        j = j - 1;
    }
    let ghost rest = s@.skip(i as int);
    proof {
        assert(trim_start(rest) == rest);
        assert forall|k: int| j - i <= k < rest.len() implies is_space(#[trigger] rest[k]) by {
            assert(rest[k] == cs@[k + i]);
        }
        lemma_trim_end_take(rest, j - i);
        assert(rest.take(j - i) =~= cs@.subrange(i as int, j as int));
        let t = rest.take(j - i);
        if t.len() > 0 {
            assert(t.last() == cs@[j - 1]);
        }
        assert(trim_end(t) == t);
    }
    string_from_range(&cs, i, j)
}

/// `p` occurs in `s` at some position.
pub open spec fn contains_seq(s: Seq<char>, p: Seq<char>) -> bool {
    exists|i: int| 0 <= i && i + p.len() <= s.len() && #[trigger] s.subrange(i, i + p.len()) == p
}

/// `s` begins with `p`.
pub open spec fn starts_with(s: Seq<char>, p: Seq<char>) -> bool {
    p.len() <= s.len() && s.take(p.len() as int) == p
}

fn matches_at(s: &Vec<char>, p: &Vec<char>, at: usize) -> (r: bool)
    requires
        at + p@.len() <= s@.len(),
    ensures
        r == (s@.subrange(at as int, at + p@.len()) == p@),
{
    let n = s.len();
    let mut k: usize = 0;
    while k < p.len()
        invariant
            n == s@.len(),
            at + p@.len() <= s@.len(),
            k <= p@.len(),
            forall|m: int| 0 <= m < k ==> s@[at + m] == p@[m],
        decreases p@.len() - k,
    {
        if s[at + k] != p[k] {
            assert(s@.subrange(at as int, at + p@.len())[k as int] != p@[k as int]);
            return false;
        }
        k = k + 1;
    }
    assert(s@.subrange(at as int, at + p@.len()) =~= p@);
    true
}

/// Whether `p` occurs in `s`, as `str::contains` with a string pattern.
pub fn str_contains(s: &str, p: &str) -> (r: bool)
    ensures
        r == contains_seq(s@, p@),
{
    let cs = chars_of(s);
    let ps = chars_of(p);
    if ps.len() > cs.len() {
        return false;
    }
    let last = cs.len() - ps.len();
    let mut i: usize = 0;
    while i <= last
        invariant
            cs@ == s@,
            ps@ == p@,
            last == cs@.len() - ps@.len(),
            i <= last + 1,
            forall|k: int| 0 <= k < i ==> #[trigger] s@.subrange(k, k + p@.len()) != p@,
        decreases last + 1 - i,
    {
        if matches_at(&cs, &ps, i) {
            return true;
        }
        if i == last {
            return false;
        }
        i = i + 1;
    }
    false
}

/// Whether `s` begins with `p`.
pub fn str_starts_with(s: &str, p: &str) -> (r: bool)
    ensures
        r == starts_with(s@, p@),
{
    let cs = chars_of(s);
    let ps = chars_of(p);
    if ps.len() > cs.len() {
        return false;
    }
    let r = matches_at(&cs, &ps, 0);
    assert(s@.subrange(0, p@.len() as int) =~= s@.take(p@.len() as int));
    r
}

/// `s` with its first `k` characters removed.
pub fn str_skip(s: &str, k: usize) -> (r: String)
    requires
        k <= s@.len(),
    ensures
        r@ == s@.skip(k as int),
{
    let cs = chars_of(s);
    let r = string_from_range(&cs, k, cs.len());
    assert(cs@.subrange(k as int, cs@.len() as int) =~= s@.skip(k as int));
    r
}

/// The concatenation of `a` and `b`.
pub fn concat(a: &str, b: &str) -> (r: String)
    ensures
        r@ == a@ + b@,
{
    let mut r = owned(a);
    r.append(b);
    r
}


/// The first position of `c` in `s`.
pub open spec fn index_of(s: Seq<char>, c: char) -> Option<int> {
    if exists|i: int| 0 <= i < s.len() && s[i] == c {
        Some(
            choose|i: int|
                0 <= i < s.len() && s[i] == c && forall|k: int| 0 <= k < i ==> s[k] != c,
        )
    } else {
        None
    }
}

/// `s` split around its first `c`, as `str::split_once` with a char.
pub open spec fn split_once_spec(s: Seq<char>, c: char) -> Option<(Seq<char>, Seq<char>)> {
    match index_of(s, c) {
        Some(i) => Some((s.take(i), s.skip(i + 1))),
        None => None,
    }
}

/// `s` split around its first `c`.
pub fn split_once(s: &str, c: char) -> (r: Option<(String, String)>)
    ensures
        match r {
            Some((a, b)) => split_once_spec(s@, c) == Some((a@, b@)),
            None => split_once_spec(s@, c) is None,
        },
{
    let cs = chars_of(s);
    let n = cs.len();
    let mut i: usize = 0;
    while i < n
        invariant
            cs@ == s@,
            n == cs@.len(),
            i <= n,
            forall|k: int| 0 <= k < i ==> cs@[k] != c,
        decreases n - i,
    {
        if cs[i] == c {
            let a = string_from_range(&cs, 0, i);
            let b = string_from_range(&cs, i + 1, n);
            proof {
                assert(exists|j: int| 0 <= j < s@.len() && s@[j] == c);
                let j = choose|j: int|
                    0 <= j < s@.len() && s@[j] == c && forall|k: int| 0 <= k < j ==> s@[k] != c;
                assert(j == i) by {
                    if j < i {
                        assert(cs@[j] != c);
                    }
                    if j > i {
                        assert(s@[i as int] != c);
                    }
                }
                assert(a@ =~= s@.take(i as int));
                assert(b@ =~= s@.skip(i + 1));
            }
            return Some((a, b));
        }
        i = i + 1;
    }
    None
}


/// `a` sorts before `b`: the order of `String`'s `Ord`, which compares
/// character by character (UTF-8 byte order is code point order).
pub open spec fn lex_lt(a: Seq<char>, b: Seq<char>) -> bool
    decreases a.len(),
{
    if b.len() == 0 {
        false
    } else if a.len() == 0 {
        true
    } else if a[0] != b[0] {
        (a[0] as u32) < (b[0] as u32)
    } else {
        lex_lt(a.drop_first(), b.drop_first())
    }
}

pub proof fn lemma_lex_lt_irreflexive(a: Seq<char>)
    ensures
        !lex_lt(a, a),
    decreases a.len(),
{
    if a.len() > 0 {
        lemma_lex_lt_irreflexive(a.drop_first());
    }
}

pub proof fn lemma_lex_lt_transitive(a: Seq<char>, b: Seq<char>, c: Seq<char>)
    requires
        lex_lt(a, b),
        lex_lt(b, c),
    ensures
        lex_lt(a, c),
    decreases a.len(),
{
    if a.len() > 0 && b.len() > 0 && c.len() > 0 {
        if a[0] == b[0] && b[0] == c[0] {
            lemma_lex_lt_transitive(a.drop_first(), b.drop_first(), c.drop_first());
        }
    }
}

/// Whether `a` sorts before `b`.
pub fn str_lt(a: &str, b: &str) -> (r: bool)
    ensures
        r == lex_lt(a@, b@),
{
    let x = chars_of(a);
    let y = chars_of(b);
    let mut i: usize = 0;
    assert(a@.skip(0) =~= a@);
    assert(b@.skip(0) =~= b@);
    while i < x.len() && i < y.len() && x[i] == y[i]
        invariant
            x@ == a@,
            y@ == b@,
            i <= x@.len(),
            i <= y@.len(),
            lex_lt(a@, b@) == lex_lt(a@.skip(i as int), b@.skip(i as int)),
        decreases x@.len() - i,
    {
        proof {
            let sa = a@.skip(i as int);
            let sb = b@.skip(i as int);
            assert(sa[0] == x@[i as int]);
            assert(sb[0] == y@[i as int]);
            assert(sa.drop_first() =~= a@.skip(i + 1));
            assert(sb.drop_first() =~= b@.skip(i + 1));
        }
        i = i + 1;
    }
    proof {
        let sa = a@.skip(i as int);
        let sb = b@.skip(i as int);
        if i < x.len() {
            assert(sa[0] == x@[i as int]);
        }
        if i < y.len() {
            assert(sb[0] == y@[i as int]);
        }
    }
    if i == y.len() {
        false
    } else if i == x.len() {
        true
    } else {
        (x[i] as u32) < (y[i] as u32)
    }
}

/// The decimal digit character for `d`.
pub open spec fn digit_char(d: nat) -> char {
    if d == 0 {
        '0'
    } else if d == 1 {
        '1'
    } else if d == 2 {
        '2'
    } else if d == 3 {
        '3'
    } else if d == 4 {
        '4'
    } else if d == 5 {
        '5'
    } else if d == 6 {
        '6'
    } else if d == 7 {
        '7'
    } else if d == 8 {
        '8'
    } else {
        '9'
    }
}

/// The decimal representation of `n`, as `Display` writes integers.
pub open spec fn decimal(n: nat) -> Seq<char>
    decreases n,
{
    if n < 10 {
        seq![digit_char(n)]
    } else {
        decimal(n / 10).push(digit_char(n % 10))
    }
}

fn digit_of(d: u64) -> (c: char)
    requires
        d < 10,
    ensures
        c == digit_char(d as nat),
{
    if d == 0 {
        '0'
    } else if d == 1 {
        '1'
    } else if d == 2 {
        '2'
    } else if d == 3 {
        '3'
    } else if d == 4 {
        '4'
    } else if d == 5 {
        '5'
    } else if d == 6 {
        '6'
    } else if d == 7 {
        '7'
    } else if d == 8 {
        '8'
    } else {
        '9'
    }
}

/// The decimal representation of `n`.
pub fn decimal_string(n: u64) -> (r: String)
    ensures
        r@ == decimal(n as nat),
    decreases n,
{
    if n < 10 {
        let mut r = String::new();
        string_push(&mut r, digit_of(n));
        assert(r@ =~= seq![digit_char(n as nat)]);
        r
    } else {
        let mut r = decimal_string(n / 10);
        string_push(&mut r, digit_of(n % 10));
        r
    }
}

/// `s` left-padded with `0` to at least `width` characters, as the
/// `{:0width$}` format writes a number.
pub open spec fn zero_padded(s: Seq<char>, width: nat) -> Seq<char> {
    if s.len() < width {
        Seq::new((width - s.len()) as nat, |_i: int| '0') + s
    } else {
        s
    }
}

/// `n` in decimal, left-padded with `0` to at least `width` characters.
pub fn zero_padded_decimal(n: u64, width: usize) -> (r: String)
    ensures
        r@ == zero_padded(decimal(n as nat), width as nat),
{
    let digits = decimal_string(n);
    let len = digits.unicode_len();
    if len >= width {
        return digits;
    }
    let mut r = String::new();
    let mut k: usize = 0;
    while k < width - len
        invariant
            len < width,
            k <= width - len,
            r@ == Seq::new(k as nat, |_i: int| '0'),
        decreases width - len - k,
    {
        string_push(&mut r, '0');
        k = k + 1;
        assert(r@ =~= Seq::new(k as nat, |_i: int| '0'));
    }
    r.append(digits.as_str());
    r
}


/// The pieces of `s` between occurrences of `sep`, empty ones included:
/// what `str::split(sep)` yields.
pub open spec fn split_all(s: Seq<char>, sep: char) -> Seq<Seq<char>>
    decreases s.len(),
{
    if s.len() == 0 {
        seq![Seq::empty()]
    } else {
        let prev = split_all(s.drop_last(), sep);
        if s.last() == sep {
            prev.push(Seq::empty())
        } else {
            prev.update(prev.len() - 1, prev.last().push(s.last()))
        }
    }
}

/// `l` without one trailing carriage return.
pub open spec fn strip_cr(l: Seq<char>) -> Seq<char> {
    if l.len() > 0 && l.last() == '\r' {
        l.drop_last()
    } else {
        l
    }
}

/// The lines of `s`, as `str::lines` yields them: split at `\n`, each
/// line ended by `\n` without one `\r` before it, and a final piece
/// after the last `\n` kept as it is when it is not empty.
pub open spec fn lines_of(s: Seq<char>) -> Seq<Seq<char>> {
    let p = split_all(s, '\n');
    let ended = p.drop_last().map_values(|l: Seq<char>| strip_cr(l));
    if p.last().len() == 0 {
        ended
    } else {
        ended.push(p.last())
    }
}

/// The lines of `s`.
pub fn lines(s: &str) -> (r: Vec<String>)
    ensures
        views(r@) == lines_of(s@),
{
    let cs = chars_of(s);
    let n = cs.len();
    let mut done: Vec<String> = Vec::new();
    let mut start: usize = 0;
    let mut i: usize = 0;
    assert(cs@.take(0) =~= Seq::<char>::empty());
    assert(views(done@).push(cs@.subrange(0, 0)) =~= seq![Seq::<char>::empty()]);
    while i < n
        invariant
            cs@ == s@,
            n == cs@.len(),
            start <= i <= n,
            split_all(cs@.take(i as int), '\n') == views(done@).push(
                cs@.subrange(start as int, i as int),
            ),
        decreases n - i,
    {
        let ghost pre = cs@.take(i as int);
        let ghost cur = cs@.take(i + 1);
        assert(cur.drop_last() =~= pre);
        assert(cur.last() == cs@[i as int]);
        if cs[i] == '\n' {
            let ghost before = done@;
            let piece = string_from_range(&cs, start, i);
            done.push(piece);
            assert(views(done@) =~= views(before).push(cs@.subrange(start as int, i as int)));
            start = i + 1;
            assert(cs@.subrange(start as int, i + 1) =~= Seq::<char>::empty());
        } else {
            assert(cs@.subrange(start as int, i + 1) =~= cs@.subrange(start as int, i as int).push(
                cs@[i as int],
            ));
        }
        i = i + 1;
        assert(split_all(cs@.take(i as int), '\n') =~= views(done@).push(
            cs@.subrange(start as int, i as int),
        ));
    }
    assert(cs@.take(n as int) =~= s@);
    let ghost all = views(done@).push(cs@.subrange(start as int, n as int));
    assert(all.drop_last() =~= views(done@));
    let ghost kept = views(done@);
    let mut r: Vec<String> = Vec::new();
    let mut k: usize = 0;
    while k < done.len()
        invariant
            kept == views(done@),
            k <= done@.len(),
            views(r@) == kept.take(k as int).map_values(|l: Seq<char>| strip_cr(l)),
        decreases done@.len() - k,
    {
        let lc = chars_of(done[k].as_str());
        let m = lc.len();
        let ghost before = r@;
        let line = if m > 0 && lc[m - 1] == '\r' {
            string_from_range(&lc, 0, m - 1)
        } else {
            string_from_range(&lc, 0, m)
        };
        proof {
            assert(kept[k as int] == done@[k as int]@);
            assert(lc@ == kept[k as int]);
            if m > 0 && lc@[m - 1] == '\r' {
                assert(lc@.subrange(0, m - 1) =~= lc@.drop_last());
            } else {
                assert(lc@.subrange(0, m as int) =~= lc@);
            }
            assert(line@ == strip_cr(kept[k as int]));
        }
        r.push(line);
        assert(views(r@) =~= views(before).push(strip_cr(kept[k as int])));
        assert(kept.take(k + 1).map_values(|l: Seq<char>| strip_cr(l)) =~= kept.take(
            k as int,
        ).map_values(|l: Seq<char>| strip_cr(l)).push(strip_cr(kept[k as int])));
        k = k + 1;
        assert(views(r@) =~= kept.take(k as int).map_values(|l: Seq<char>| strip_cr(l)));
    }
    assert(kept.take(done@.len() as int) =~= kept);
    if start < n {
        let ghost before = r@;
        let last = string_from_range(&cs, start, n);
        r.push(last);
        assert(views(r@) =~= views(before).push(cs@.subrange(start as int, n as int)));
    }
    r
}

} // verus!
