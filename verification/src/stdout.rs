//! Per-line primitives for reading a sidecar's endpoint from the stdout
//! of a tool that does not print a ready line: ANSI escape stripping and
//! capture of the endpoint by a pattern.

use vstd::prelude::*;

use crate::text::{chars_of, lines, lines_of, owned, string_from_chars, views};

verus! {

pub open spec fn is_ascii_alpha(c: char) -> bool {
    ('a' <= c && c <= 'z') || ('A' <= c && c <= 'Z')
}

pub open spec fn escape_char() -> char {
    '\u{1b}'
}

/// The position after the end of the CSI sequence whose parameters start
/// at `i`: one past the first ASCII letter at or after `i`, or the end.
pub open spec fn csi_end(s: Seq<char>, i: int) -> int
    decreases s.len() - i,
{
    if i < 0 || i >= s.len() {
        s.len() as int
    } else if is_ascii_alpha(s[i]) {
        i + 1
    } else {
        csi_end(s, i + 1)
    }
}

pub proof fn lemma_csi_end_bounds(s: Seq<char>, i: int)
    requires
        0 <= i <= s.len(),
    ensures
        i <= csi_end(s, i) <= s.len(),
        i < s.len() ==> i < csi_end(s, i),
    decreases s.len() - i,
{
    if i < s.len() && !is_ascii_alpha(s[i]) {
        lemma_csi_end_bounds(s, i + 1);
    }
}

/// `s` with ANSI escapes removed: `ESC [` and everything up to and
/// including the next ASCII letter (or the rest of `s`) goes; any other
/// `ESC` goes alone; every other character stays.
pub open spec fn strip_ansi_spec(s: Seq<char>) -> Seq<char>
    decreases s.len(),
{
    if s.len() == 0 {
        Seq::empty()
    } else if s[0] == escape_char() {
        if s.len() > 1 && s[1] == '[' {
            proof {
                lemma_csi_end_bounds(s, 2);
            }
            strip_ansi_spec(s.skip(csi_end(s, 2)))
        } else {
            strip_ansi_spec(s.drop_first())
        }
    } else {
        seq![s[0]] + strip_ansi_spec(s.drop_first())
    }
}

proof fn lemma_csi_end_skip(s: Seq<char>, i: int, k: int)
    requires
        0 <= i <= s.len(),
        0 <= k,
    ensures
        csi_end(s.skip(i), k) == csi_end(s, i + k) - i,
    decreases s.len() - i - k,
{
    if i + k < s.len() {
        assert(s.skip(i)[k] == s[i + k]);
        if !is_ascii_alpha(s[i + k]) {
            lemma_csi_end_skip(s, i, k + 1);
        }
    }
}

/// Removes ANSI escape sequences (colour codes and the like) from one
/// line of output.
pub fn strip_ansi(input: &str) -> (r: String)
    ensures
        r@ == strip_ansi_spec(input@),
{
    let cs = chars_of(input);
    let n = cs.len();
    let mut out: Vec<char> = Vec::new();
    let mut i: usize = 0;
    assert(cs@.skip(0) =~= cs@);
    assert(out@ + strip_ansi_spec(cs@) =~= strip_ansi_spec(cs@));
    while i < n
        invariant
            cs@ == input@,
            n == cs@.len(),
            i <= n,
            strip_ansi_spec(input@) == out@ + strip_ansi_spec(cs@.skip(i as int)),
        decreases n - i,
    {
        let ghost t = cs@.skip(i as int);
        let c = cs[i];
        assert(t[0] == c);
        if c == '\u{1b}' {
            if i + 1 < n && cs[i + 1] == '[' {
                assert(t[1] == cs@[i + 1]);
                let mut j: usize = i + 2;
                while j < n && !(('a' <= cs[j] && cs[j] <= 'z') || ('A' <= cs[j] && cs[j] <= 'Z'))
                    invariant
                        cs@ == input@,
                        n == cs@.len(),
                        i + 2 <= j <= n,
                        csi_end(cs@, i + 2) == csi_end(cs@, j as int),
                    decreases n - j,
                {
                    j = j + 1;
                }
                if j < n {
                    j = j + 1;
                }
                proof {
                    lemma_csi_end_skip(cs@, i as int, 2);
                    lemma_csi_end_bounds(t, 2);
                    assert(csi_end(cs@, i + 2) == j);
                    assert(t.skip(csi_end(t, 2)) =~= cs@.skip(j as int));
                }
                i = j;
            } else {
                if i + 1 < n {
                    assert(t[1] == cs@[i + 1]);
                }
                assert(t.drop_first() =~= cs@.skip(i + 1));
                i = i + 1;
            }
        } else {
            assert(t.drop_first() =~= cs@.skip(i + 1));
            out.push(c);
            i = i + 1;
        }
    }
    assert(cs@.skip(n as int) =~= Seq::<char>::empty());
    string_from_chars(&out)
}

/// No escape character is left after stripping.
pub proof fn law_strip_ansi_removes_escapes(s: Seq<char>)
    ensures
        forall|k: int|
            0 <= k < strip_ansi_spec(s).len() ==> #[trigger] strip_ansi_spec(s)[k] != escape_char(),
    decreases s.len(),
{
    if s.len() > 0 {
        if s[0] == escape_char() {
            if s.len() > 1 && s[1] == '[' {
                lemma_csi_end_bounds(s, 2);
                law_strip_ansi_removes_escapes(s.skip(csi_end(s, 2)));
                assert(strip_ansi_spec(s) == strip_ansi_spec(s.skip(csi_end(s, 2))));
            } else {
                law_strip_ansi_removes_escapes(s.drop_first());
                assert(strip_ansi_spec(s) == strip_ansi_spec(s.drop_first()));
            }
        } else {
            law_strip_ansi_removes_escapes(s.drop_first());
            let r = strip_ansi_spec(s);
            assert forall|k: int| 0 <= k < r.len() implies #[trigger] r[k] != escape_char() by {
                if k > 0 {
                    assert(r[k] == strip_ansi_spec(s.drop_first())[k - 1]);
                }
            }
        }
    }
}

/// Text without escape characters is left as it is.
pub proof fn law_strip_ansi_keeps_plain_text(s: Seq<char>)
    requires
        forall|k: int| 0 <= k < s.len() ==> #[trigger] s[k] != escape_char(),
    ensures
        strip_ansi_spec(s) == s,
    decreases s.len(),
{
    if s.len() > 0 {
        assert(s[0] != escape_char());
        assert forall|k: int| 0 <= k < s.drop_first().len() implies #[trigger] s.drop_first()[k]
            != escape_char() by {
            assert(s.drop_first()[k] == s[k + 1]);
        }
        law_strip_ansi_keeps_plain_text(s.drop_first());
        assert(seq![s[0]] + s.drop_first() =~= s);
    }
}

/// Stripping twice strips no more than stripping once.
pub proof fn law_strip_ansi_idempotent(s: Seq<char>)
    ensures
        strip_ansi_spec(strip_ansi_spec(s)) == strip_ansi_spec(s),
{
    law_strip_ansi_removes_escapes(s);
    law_strip_ansi_keeps_plain_text(strip_ansi_spec(s));
}


/// `regex::Regex`, a compiled pattern, opaque here.
/// `a` is `b` with some characters left out, the rest in their order.
pub open spec fn is_char_subsequence(a: Seq<char>, b: Seq<char>) -> bool
    decreases b.len(),
{
    if a.len() == 0 {
        true
    } else if b.len() == 0 {
        false
    } else if a[0] == b[0] {
        is_char_subsequence(a.drop_first(), b.drop_first())
    } else {
        is_char_subsequence(a, b.drop_first())
    }
}

proof fn lemma_subsequence_drop_first(a: Seq<char>, b: Seq<char>)
    requires
        b.len() > 0,
        is_char_subsequence(a, b.drop_first()),
    ensures
        is_char_subsequence(a, b),
    decreases b.len(), 0int,
{
    if a.len() > 0 && a[0] == b[0] {
        lemma_subsequence_shrink_front(a, b.drop_first());
    }
}

proof fn lemma_subsequence_shrink_front(a: Seq<char>, c: Seq<char>)
    requires
        a.len() > 0,
        is_char_subsequence(a, c),
    ensures
        is_char_subsequence(a.drop_first(), c),
    decreases c.len(), 1int,
{
    if c.len() > 0 {
        if a[0] == c[0] {
            if a.drop_first().len() > 0 {
                lemma_subsequence_drop_first(a.drop_first(), c);
            }
        } else {
            lemma_subsequence_shrink_front(a, c.drop_first());
            if a.drop_first().len() > 0 {
                lemma_subsequence_drop_first(a.drop_first(), c);
            }
        }
    }
}

proof fn lemma_subsequence_skip(a: Seq<char>, b: Seq<char>, k: int)
    requires
        0 <= k <= b.len(),
        is_char_subsequence(a, b.skip(k)),
    ensures
        is_char_subsequence(a, b),
    decreases k,
{
    if k > 0 {
        assert(b.skip(k - 1).drop_first() =~= b.skip(k));
        lemma_subsequence_drop_first(a, b.skip(k - 1));
        lemma_subsequence_skip(a, b, k - 1);
    } else {
        assert(b.skip(0) =~= b);
    }
}

/// Stripping only removes characters: what is left is the input with
/// some characters taken out, the rest in their order.
pub proof fn law_strip_ansi_subsequence(s: Seq<char>)
    ensures
        is_char_subsequence(strip_ansi_spec(s), s),
    decreases s.len(),
{
    if s.len() > 0 {
        if s[0] == escape_char() {
            if s.len() > 1 && s[1] == '[' {
                lemma_csi_end_bounds(s, 2);
                let k = csi_end(s, 2);
                law_strip_ansi_subsequence(s.skip(k));
                lemma_subsequence_skip(strip_ansi_spec(s), s, k);
            } else {
                law_strip_ansi_subsequence(s.drop_first());
                lemma_subsequence_drop_first(strip_ansi_spec(s), s);
            }
        } else {
            law_strip_ansi_subsequence(s.drop_first());
            let r = strip_ansi_spec(s);
            assert(r[0] == s[0]);
            assert(r.drop_first() =~= strip_ansi_spec(s.drop_first()));
        }
    }
}

/// `c` may stand among the parameters of a CSI sequence: a digit or `;`.
pub open spec fn is_csi_parameter(c: char) -> bool {
    ('0' <= c && c <= '9') || c == ';'
}

proof fn lemma_csi_end_after_parameters(s: Seq<char>, i: int, p: Seq<char>)
    requires
        0 <= i,
        i + p.len() < s.len(),
        forall|k: int| 0 <= k < p.len() ==> #[trigger] p[k] == s[i + k] && is_csi_parameter(p[k]),
        is_ascii_alpha(s[i + p.len()]),
    ensures
        csi_end(s, i) == i + p.len() + 1,
    decreases p.len(),
{
    if p.len() > 0 {
        assert(p[0] == s[i]);
        assert(!is_ascii_alpha(s[i]));
        let q = p.drop_first();
        assert forall|k: int| 0 <= k < q.len() implies #[trigger] q[k] == s[i + 1 + k]
            && is_csi_parameter(q[k]) by {
            assert(q[k] == p[k + 1]);
        }
        lemma_csi_end_after_parameters(s, i + 1, q);
    }
}

/// A CSI sequence ends at its first ASCII letter, upper or lower case:
/// `ESC [`, any digits and `;`, and one letter go, and the text after them
/// is stripped on its own. So `strip_ansi("\x1b[2K" + t)` is
/// `strip_ansi(t)`.
pub proof fn law_strip_ansi_drops_csi(p: Seq<char>, letter: char, t: Seq<char>)
    requires
        is_ascii_alpha(letter),
        forall|k: int| 0 <= k < p.len() ==> is_csi_parameter(#[trigger] p[k]),
    ensures
        strip_ansi_spec(seq![escape_char(), '['] + p + seq![letter] + t) == strip_ansi_spec(t),
{
    let s = seq![escape_char(), '['] + p + seq![letter] + t;
    assert(s[0] == escape_char());
    assert(s[1] == '[');
    assert(s[2 + p.len() as int] == letter);
    assert forall|k: int| 0 <= k < p.len() implies #[trigger] p[k] == s[2 + k] && is_csi_parameter(
        p[k],
    ) by {}
    lemma_csi_end_after_parameters(s, 2, p);
    assert(s.skip(2 + p.len() as int + 1) =~= t);
}

#[verifier::external_type_specification]
#[verifier::external_body]
pub struct ExRegex(regex::Regex);

/// `regex::Error`, why a pattern did not compile, opaque here.
#[verifier::external_type_specification]
#[verifier::external_body]
pub struct ExRegexError(regex::Error);

/// Whether `regex::Regex::new` accepts `pattern`: it is valid syntax and
/// compiles within the default size limit.
pub uninterp spec fn regex_accepts(pattern: Seq<char>) -> bool;

/// The text of capture group 1 of the leftmost-first match of `pattern`
/// in `text`; `None` when nothing matches, when the pattern has no group
/// 1, or when group 1 does not take part in the match.
pub uninterp spec fn regex_first_capture(pattern: Seq<char>, text: Seq<char>) -> Option<Seq<char>>;

/// `regex::Regex::new`: succeeds exactly when `regex_accepts` holds of
/// the pattern.
#[verifier::external_body]
fn compile_regex(pattern: &str) -> (r: Result<regex::Regex, regex::Error>)
    ensures
        r is Ok <==> regex_accepts(pattern@),
{
    regex::Regex::new(pattern)
}

/// A compiled endpoint pattern together with its source text; the
/// compiled form is always the compilation of the source.
pub struct StdoutPattern {
    source: String,
    compiled: regex::Regex,
}

pub open spec fn opt_view(o: Option<String>) -> Option<Seq<char>> {
    match o {
        Some(s) => Some(s@),
        None => None,
    }
}

/// `regex::Regex::captures` followed by `Captures::get(1)`: the text of
/// capture group 1 of the leftmost-first match, as `regex_first_capture`
/// names it for the pattern's source.
#[verifier::external_body]
fn capture_group_one(pattern: &StdoutPattern, text: &str) -> (r: Option<String>)
    ensures
        opt_view(r) == regex_first_capture(pattern@, text@),
{
    pattern.compiled.captures(text).and_then(|c| c.get(1)).map(|m| m.as_str().to_string())
}

/// A pattern is viewed as its source text.
impl View for StdoutPattern {
    type V = Seq<char>;

    closed spec fn view(&self) -> Seq<char> {
        self.source@
    }
}

impl StdoutPattern {
    /// Compiles `pattern`.
    pub fn new(pattern: &str) -> (r: Result<StdoutPattern, regex::Error>)
        ensures
            r is Ok <==> regex_accepts(pattern@),
            r matches Ok(p) ==> p@ == pattern@,
    {
        match compile_regex(pattern) {
            Ok(compiled) => Ok(StdoutPattern { source: owned(pattern), compiled }),
            Err(e) => Err(e),
        }
    }

    /// The pattern's source text.
    pub fn as_str(&self) -> (r: &str)
        ensures
            r@ == self@,
    {
        self.source.as_str()
    }
}

/// The endpoint in one line of output: capture group 1 of the first
/// match of `pattern` in the line after its ANSI escapes are removed.
pub fn extract_endpoint(line: &str, pattern: &StdoutPattern) -> (r: Option<String>)
    ensures
        opt_view(r) == regex_first_capture(pattern@, strip_ansi_spec(line@)),
{
    let stripped = strip_ansi(line);
    capture_group_one(pattern, stripped.as_str())
}

/// The endpoint of the first of `ls` that yields one.
pub open spec fn first_endpoint(ls: Seq<Seq<char>>, pattern: Seq<char>) -> Option<Seq<char>>
    decreases ls.len(),
{
    if ls.len() == 0 {
        None
    } else {
        match regex_first_capture(pattern, strip_ansi_spec(ls[0])) {
            Some(e) => Some(e),
            None => first_endpoint(ls.drop_first(), pattern),
        }
    }
}

/// The endpoint in a block of output, such as a log read so far: the
/// endpoint of its first line that holds one.
pub fn endpoint_in_text(text: &str, pattern: &StdoutPattern) -> (r: Option<String>)
    ensures
        opt_view(r) == first_endpoint(lines_of(text@), pattern@),
{
    let ls = lines(text);
    let ghost all = views(ls@);
    assert(all.skip(0) =~= all);
    let mut i: usize = 0;
    while i < ls.len()
        invariant
            all == views(ls@),
            all == lines_of(text@),
            i <= ls@.len(),
            first_endpoint(all, pattern@) == first_endpoint(all.skip(i as int), pattern@),
        decreases ls@.len() - i,
    {
        let ghost rest = all.skip(i as int);
        assert(rest[0] == ls@[i as int]@);
        assert(rest.drop_first() =~= all.skip(i + 1));
        let found = extract_endpoint(ls[i].as_str(), pattern);
        if found.is_some() {
            return found;
        }
        i = i + 1;
    }
    assert(all.skip(ls@.len() as int) =~= Seq::<Seq<char>>::empty());
    None
}

} // verus!
