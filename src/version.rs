//! Reading the version token out of an installed filter file's text.
use vstd::prelude::*;
use crate::text::{has_infix, has_infix_exec, chars_of, string_of};

verus! {

/// The text that marks the version line of a filter file.
pub const VERSION_MARKER: &'static str = "# VERSION:";

pub open spec fn version_marker() -> Seq<char> {
    seq!['#', ' ', 'V', 'E', 'R', 'S', 'I', 'O', 'N', ':']
}

/// Unicode `White_Space`, the property that `char::is_whitespace` tests.
pub open spec fn is_white(c: char) -> bool {
    let u: u32 = c as u32;
    (0x09 <= u && u <= 0x0D) || u == 0x20 || u == 0x85 || u == 0xA0 || u == 0x1680
        || (0x2000 <= u && u <= 0x200A) || u == 0x2028 || u == 0x2029 || u == 0x202F
        || u == 0x205F || u == 0x3000
}

pub fn is_white_exec(c: char) -> (r: bool)
    ensures
        r == is_white(c),
{
    let u: u32 = c as u32;
    (0x09 <= u && u <= 0x0D) || u == 0x20 || u == 0x85 || u == 0xA0 || u == 0x1680
        || (0x2000 <= u && u <= 0x200A) || u == 0x2028 || u == 0x2029 || u == 0x202F
        || u == 0x205F || u == 0x3000
}

/// Length of `s` once trailing white space is cut off.
pub open spec fn trimmed_len(s: Seq<char>) -> nat
    decreases s.len(),
{
    if s.len() == 0 {
        0
    } else if is_white(s.last()) {
        trimmed_len(s.drop_last())
    } else {
        s.len()
    }
}

/// Start of the last run of non-white characters of `s`, when `s` ends in
/// such a run (0 when `s` holds no white space).
pub open spec fn word_start(s: Seq<char>) -> nat
    decreases s.len(),
{
    if s.len() == 0 {
        0
    } else if is_white(s.last()) {
        s.len()
    } else {
        word_start(s.drop_last())
    }
}

/// The last white-space-delimited word of `s`, if `s` has any word.
pub open spec fn last_word(s: Seq<char>) -> Option<Seq<char>> {
    let t = s.subrange(0, trimmed_len(s) as int);
    if t.len() == 0 {
        None
    } else {
        Some(t.subrange(word_start(t) as int, t.len() as int))
    }
}

/// Index of the first line break at or after `i`, or the length of `s`.
pub open spec fn line_end(s: Seq<char>, i: int) -> int
    decreases s.len() - i,
{
    if i < 0 || i >= s.len() {
        s.len() as int
    } else if s[i] == '\n' {
        i
    } else {
        line_end(s, i + 1)
    }
}

/// The first line (pieces of `s` between line breaks), starting with the line
/// that begins at `i`, that holds the version marker.
pub open spec fn marker_line_from(s: Seq<char>, i: int) -> Option<Seq<char>>
    decreases s.len() - i,
    via marker_line_from_decreases
{
    if i < 0 || i >= s.len() {
        None
    } else {
        let e = line_end(s, i);
        let line = s.subrange(i, e);
        if has_infix(line, version_marker()) {
            Some(line)
        } else if e >= s.len() {
            None
        } else {
            marker_line_from(s, e + 1)
        }
    }
}

#[via_fn]
proof fn marker_line_from_decreases(s: Seq<char>, i: int) {
    if 0 <= i < s.len() {
        lemma_line_end(s, i);
    }
}

/// The first line of `content` that holds the version marker.
pub open spec fn marker_line(content: Seq<char>) -> Option<Seq<char>> {
    marker_line_from(content, 0)
}

/// The version a filter file declares: the last word of its first line that
/// holds the version marker.
pub open spec fn version_of(content: Seq<char>) -> Option<Seq<char>> {
    match marker_line(content) {
        Some(line) => last_word(line),
        None => None,
    }
}

pub proof fn lemma_line_end(s: Seq<char>, i: int)
    requires
        0 <= i <= s.len(),
    ensures
        i <= line_end(s, i) <= s.len(),
        line_end(s, i) < s.len() ==> s[line_end(s, i)] == '\n',
        forall|k: int| i <= k < line_end(s, i) ==> s[k] != '\n',
    decreases s.len() - i,
{
    if i < s.len() && s[i] != '\n' {
        lemma_line_end(s, i + 1);
    }
}

proof fn lemma_trimmed_len(s: Seq<char>)
    ensures
        trimmed_len(s) <= s.len(),
        trimmed_len(s) > 0 ==> !is_white(s[trimmed_len(s) - 1]),
        trimmed_len(s) == 0 ==> forall|k: int| 0 <= k < s.len() ==> is_white(s[k]),
    decreases s.len(),
{
    if s.len() > 0 && is_white(s.last()) {
        lemma_trimmed_len(s.drop_last());
        if trimmed_len(s) == 0 {
            assert forall|k: int| 0 <= k < s.len() implies is_white(s[k]) by {
                if k < s.len() - 1 {
                    assert(s.drop_last()[k] == s[k]);
                }
            }
        }
    }
}

proof fn lemma_word_start(s: Seq<char>)
    ensures
        word_start(s) <= s.len(),
    decreases s.len(),
{
    if s.len() > 0 && !is_white(s.last()) {
        lemma_word_start(s.drop_last());
    }
}

/// The characters `s[a..b]`.
fn copy_range(s: &Vec<char>, a: usize, b: usize) -> (r: Vec<char>)
    requires
        a <= b <= s.len(),
    ensures
        r@ == s@.subrange(a as int, b as int),
{
    let mut r: Vec<char> = Vec::new();
    let mut k: usize = a;
    while k < b
        invariant
            a <= k <= b <= s.len(),
            r@ == s@.subrange(a as int, k as int),
        decreases b - k,
    {
        r.push(s[k]);
        k = k + 1;
        assert(r@ =~= s@.subrange(a as int, k as int));
    }
    r
}

fn find_line_end(s: &Vec<char>, i: usize) -> (e: usize)
    requires
        i <= s.len(),
    ensures
        e == line_end(s@, i as int),
        i <= e <= s.len(),
{
    let mut j: usize = i;
    while j < s.len() && s[j] != '\n'
        invariant
            i <= j <= s.len(),
            line_end(s@, j as int) == line_end(s@, i as int),
        decreases s.len() - j,
    {
        j = j + 1;
    }
    j
}

/// The last white-space-delimited word of `line`.
pub fn last_word_exec(line: &Vec<char>) -> (r: Option<String>)
    ensures
        match last_word(line@) {
            Some(w) => r is Some && r->0@ == w,
            None => r is None,
        },
{
    let mut e: usize = line.len();
    assert(line@.subrange(0, e as int) =~= line@);
    while e > 0 && is_white_exec(line[e - 1])
        invariant
            e <= line.len(),
            trimmed_len(line@) == trimmed_len(line@.subrange(0, e as int)),
        decreases e,
    {
        assert(line@.subrange(0, e as int).drop_last() =~= line@.subrange(0, e - 1));
        e = e - 1;
    }
    proof {
        assert(line@.subrange(0, e as int).subrange(0, e as int) =~= line@.subrange(0, e as int));
    }
    if e == 0 {
        assert(line@.subrange(0, trimmed_len(line@) as int).len() == 0);
        return None;
    }
    let t = copy_range(line, 0, e);
    assert(t@ == line@.subrange(0, trimmed_len(line@) as int));
    let mut b: usize = e;
    while b > 0 && !is_white_exec(t[b - 1])
        invariant
            b <= t.len(),
            word_start(t@) == word_start(t@.subrange(0, b as int)),
        decreases b,
    {
        assert(t@.subrange(0, b as int).drop_last() =~= t@.subrange(0, b - 1));
        b = b - 1;
    }
    let w = copy_range(&t, b, e);
    Some(string_of(w.as_slice()))
}

/// The version found in the configuration directory, and whether the
/// directory was created on the way.
#[derive(Debug, Clone)]
pub struct FetchExistingFilterVersionResult {
    pub poedir: String,
    pub created_directory: bool,
}

/// Reading the version of a filter file failed: no line holds the marker.
#[derive(Debug, Clone, Copy, PartialEq, Eq)]
pub struct MissingVersionLine;

/// The version declared by a filter file whose text is `content`: the last
/// word of the first line holding `# VERSION:`.
pub fn read_filter_version_from_string(content: &str) -> (r: Result<String, MissingVersionLine>)
    ensures
        r is Ok <==> version_of(content@) is Some,
        r is Ok ==> r->Ok_0@ == version_of(content@)->0,
{
    proof {
        reveal_strlit("# VERSION:");
    }
    let s = chars_of(content);
    let marker = chars_of(VERSION_MARKER);
    assert(marker@ =~= version_marker());
    let mut i: usize = 0;
    while i < s.len()
        invariant
            marker@ == version_marker(),
            s@ == content@,
            i <= s.len(),
            marker_line_from(s@, 0) == marker_line_from(s@, i as int),
        decreases s.len() - i,
    {
        let e = find_line_end(&s, i);
        let line = copy_range(&s, i, e);
        assert(marker_line_from(s@, i as int) == if has_infix(line@, version_marker()) {
            Some(line@)
        } else if e >= s.len() {
            None
        } else {
            marker_line_from(s@, e + 1)
        });
        if has_infix_exec(&line, &marker) {
            assert(marker_line(content@) == Some(line@));
            return match last_word_exec(&line) {
                Some(w) => Ok(w),
                None => Err(MissingVersionLine),
            };
        }
        if e >= s.len() {
            return Err(MissingVersionLine);
        }
        i = e + 1;
    }
    Err(MissingVersionLine)
}


proof fn lemma_trim_white_tail(x: Seq<char>, w: Seq<char>)
    requires
        x.len() > 0,
        !is_white(x.last()),
        forall|k: int| 0 <= k < w.len() ==> is_white(#[trigger] w[k]),
    ensures
        trimmed_len(x + w) == x.len(),
    decreases w.len(),
{
    if w.len() == 0 {
        assert(x + w =~= x);
    } else {
        assert((x + w).drop_last() =~= x + w.drop_last());
        assert((x + w).last() == w.last());
        lemma_trim_white_tail(x, w.drop_last());
    }
}

proof fn lemma_word_after_white(y: Seq<char>, z: Seq<char>)
    requires
        y.len() > 0,
        is_white(y.last()),
        forall|k: int| 0 <= k < z.len() ==> !is_white(#[trigger] z[k]),
    ensures
        word_start(y + z) == y.len(),
    decreases z.len(),
{
    if z.len() == 0 {
        assert(y + z =~= y);
    } else {
        assert((y + z).drop_last() =~= y + z.drop_last());
        assert((y + z).last() == z.last());
        lemma_word_after_white(y, z.drop_last());
    }
}

proof fn lemma_skip_lines(s: Seq<char>, before_len: int, i: int)
    requires
        0 <= i <= before_len <= s.len(),
        before_len > 0 ==> s[before_len - 1] == '\n',
        !has_infix(s.subrange(0, before_len), version_marker()),
    ensures
        marker_line_from(s, i) == marker_line_from(s, before_len),
    decreases before_len - i,
{
    if i < before_len {
        lemma_line_end(s, i);
        let e = line_end(s, i);
        assert(e <= before_len - 1);
        let line = s.subrange(i, e);
        if has_infix(line, version_marker()) {
            let p = choose|p: int| crate::text::occurs_at(line, version_marker(), p);
            let m = version_marker();
            assert(s.subrange(0, before_len).subrange(i + p, i + p + m.len()) =~= line.subrange(
                p,
                p + m.len(),
            ));
            assert(crate::text::occurs_at(s.subrange(0, before_len), m, i + p));
        }
        lemma_skip_lines(s, before_len, e + 1);
    }
}

proof fn lemma_marker_line_found(before: Seq<char>, line: Seq<char>, after: Seq<char>)
    requires
        before.len() == 0 || before.last() == '\n',
        !has_infix(before, version_marker()),
        has_infix(line, version_marker()),
        forall|k: int| 0 <= k < line.len() ==> line[k] != '\n',
        after.len() == 0 || after[0] == '\n',
    ensures
        marker_line(before + line + after) == Some(line),
{
    let m = version_marker();
    let s = before + line + after;
    let bl = before.len() as int;
    assert(s.subrange(0, bl) =~= before);
    lemma_skip_lines(s, bl, 0);
    lemma_line_end(s, bl);
    let e = line_end(s, bl);
    let le = bl + line.len();
    if e < le {
        assert(s[e] == line[e - bl]);
    }
    if le < s.len() {
        assert(s[le] == after[0]);
    }
    assert(e == le);
    assert(s.subrange(bl, e) =~= line);
}

proof fn lemma_last_word_is_token(x: Seq<char>, ws1: Seq<char>, token: Seq<char>, ws2: Seq<char>)
    requires
        ws1.len() > 0,
        forall|k: int| 0 <= k < ws1.len() ==> is_white(#[trigger] ws1[k]),
        forall|k: int| 0 <= k < ws2.len() ==> is_white(#[trigger] ws2[k]),
        token.len() > 0,
        forall|k: int| 0 <= k < token.len() ==> !is_white(#[trigger] token[k]),
    ensures
        last_word(x + ws1 + token + ws2) == Some(token),
{
    let line = x + ws1 + token + ws2;
    let t = x + ws1 + token;
    assert(line =~= t + ws2);
    assert(t.last() == token.last());
    lemma_trim_white_tail(t, ws2);
    assert(line.subrange(0, t.len() as int) =~= t);
    let y = x + ws1;
    assert(t =~= y + token);
    assert(y.last() == ws1.last());
    lemma_word_after_white(y, token);
    assert(t.subrange(y.len() as int, t.len() as int) =~= token);
}

/// A line holding `# VERSION:` followed by white space, a token and optional
/// white space declares that token, whatever stands before the marker on its
/// line, whatever marker-free lines stand before it and whatever lines follow.
pub proof fn lemma_version_line(
    before: Seq<char>,
    lead: Seq<char>,
    ws1: Seq<char>,
    token: Seq<char>,
    ws2: Seq<char>,
    after: Seq<char>,
)
    requires
        before.len() == 0 || before.last() == '\n',
        !has_infix(before, version_marker()),
        forall|k: int| 0 <= k < lead.len() ==> #[trigger] lead[k] != '\n',
        ws1.len() > 0,
        forall|k: int| 0 <= k < ws1.len() ==> is_white(#[trigger] ws1[k]) && ws1[k] != '\n',
        forall|k: int| 0 <= k < ws2.len() ==> is_white(#[trigger] ws2[k]) && ws2[k] != '\n',
        token.len() > 0,
        forall|k: int| 0 <= k < token.len() ==> !is_white(#[trigger] token[k]),
        after.len() == 0 || after[0] == '\n',
    ensures
        version_of(before + lead + version_marker() + ws1 + token + ws2 + after) == Some(token),
{
    let m = version_marker();
    let x = lead + m;
    let line = x + ws1 + token + ws2;
    assert(before + lead + version_marker() + ws1 + token + ws2 + after =~= before + line + after);
    let ll = lead.len() as int;
    let xl = x.len() as int;
    assert forall|k: int| 0 <= k < line.len() implies line[k] != '\n' by {
        if k < ll {
            assert(line[k] == lead[k]);
        } else if k < xl {
            assert(line[k] == m[k - ll]);
        } else if k < xl + ws1.len() {
            assert(line[k] == ws1[k - xl]);
        } else if k < xl + ws1.len() + token.len() {
            assert(line[k] == token[k - xl - ws1.len()]);
            assert(!is_white(token[k - xl - ws1.len()]));
        } else {
            assert(line[k] == ws2[k - xl - ws1.len() - token.len()]);
        }
    }
    assert(line.subrange(ll, ll + m.len()) =~= m);
    assert(crate::text::occurs_at(line, m, ll));
    lemma_marker_line_found(before, line, after);
    lemma_last_word_is_token(x, ws1, token, ws2);
}

} // verus!
