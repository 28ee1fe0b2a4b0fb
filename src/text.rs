use vstd::prelude::*;

verus! {

/// Unicode White_Space, which chart lines are trimmed of.
pub open spec fn is_space(c: char) -> bool {
    ('\u{09}' <= c && c <= '\u{0D}') || c == ' ' || c == '\u{85}' || c == '\u{A0}' || c == '\u{1680}'
        || ('\u{2000}' <= c && c <= '\u{200A}') || c == '\u{2028}' || c == '\u{2029}' || c == '\u{202F}'
        || c == '\u{205F}' || c == '\u{3000}'
}

/// `s` without its leading whitespace.
pub open spec fn trim_start(s: Seq<char>) -> Seq<char>
    decreases s.len(),
{
    if s.len() > 0 && is_space(s[0]) {
        trim_start(s.drop_first())
    } else {
        s
    }
}

/// `s` without its trailing whitespace.
pub open spec fn trim_end(s: Seq<char>) -> Seq<char>
    decreases s.len(),
{
    if s.len() > 0 && is_space(s.last()) {
        trim_end(s.drop_last())
    } else {
        s
    }
}

pub open spec fn trim(s: Seq<char>) -> Seq<char> {
    trim_end(trim_start(s))
}

/// A line comment (`//`) starts at position `i`.
pub open spec fn comment_at(s: Seq<char>, i: int) -> bool {
    0 <= i && i + 1 < s.len() && s[i] == '/' && s[i + 1] == '/'
}

/// The first position, at or after `i`, where a comment starts; `s.len()` if none does.
pub open spec fn comment_from(s: Seq<char>, i: int) -> int
    decreases s.len() - i,
{
    if i >= s.len() {
        s.len() as int
    } else if comment_at(s, i) {
        i
    } else {
        comment_from(s, i + 1)
    }
}

/// The text of a line before its comment.
pub open spec fn code_part(s: Seq<char>) -> Seq<char> {
    s.take(comment_from(s, 0))
}

/// A line reduced to its meaningful text: the comment removed, then trimmed.
pub open spec fn normalized(s: Seq<char>) -> Seq<char> {
    trim(code_part(s))
}

/// The characters of `s`, in order.
pub fn chars_of(s: &str) -> (r: Vec<char>)
    ensures
        r@ == s@,
{
    let mut v: Vec<char> = Vec::new();
    for c in it: s.chars()
        invariant
            v@ == it.seq().take(it.index() as int),
            it.seq() == s@,
    {
        v.push(c);
    }
    assert(v@ =~= s@);
    v
}

/// Removes leading and trailing whitespace.
pub fn trim_chars(s: &[char]) -> (r: Vec<char>)
    ensures
        r@ == trim(s@),
{
    let mut lo: usize = 0;
    assert(s@.subrange(0, s@.len() as int) =~= s@);
    while lo < s.len() && is_space_exec(s[lo])
        invariant
            lo <= s@.len(),
            trim_start(s@) == trim_start(s@.subrange(lo as int, s@.len() as int)),
        decreases s.len() - lo,
    {
        assert(s@.subrange(lo as int, s@.len() as int).drop_first() =~= s@.subrange(
            lo + 1,
            s@.len() as int,
        ));
        lo = lo + 1;
    }
    let ghost start = s@.subrange(lo as int, s@.len() as int);
    assert(trim_start(s@) == start);
    let mut hi: usize = s.len();
    while hi > lo && is_space_exec(s[hi - 1])
        invariant
            lo <= hi <= s@.len(),
            trim_end(start) == trim_end(s@.subrange(lo as int, hi as int)),
        decreases hi,
    {
        assert(s@.subrange(lo as int, hi as int).drop_last() =~= s@.subrange(
            lo as int,
            hi - 1,
        ));
        hi = hi - 1;
    }
    let mut r: Vec<char> = Vec::new();
    let mut k: usize = lo;
    while k < hi
        invariant
            lo <= k <= hi <= s@.len(),
            r@ == s@.subrange(lo as int, k as int),
        decreases hi - k,
    {
        r.push(s[k]);
        k = k + 1;
        assert(r@ =~= s@.subrange(lo as int, k as int));
    }
    r
}

pub fn is_space_exec(c: char) -> (b: bool)
    ensures
        b == is_space(c),
{
    ('\u{09}' <= c && c <= '\u{0D}') || c == ' ' || c == '\u{85}' || c == '\u{A0}' || c == '\u{1680}'
        || ('\u{2000}' <= c && c <= '\u{200A}') || c == '\u{2028}' || c == '\u{2029}' || c == '\u{202F}'
        || c == '\u{205F}' || c == '\u{3000}'
}

/// The text of a line before its `//` comment.
pub fn code_part_of(s: &[char]) -> (r: Vec<char>)
    ensures
        r@ == code_part(s@),
{
    let mut r: Vec<char> = Vec::new();
    let mut i: usize = 0;
    while i < s.len() && !(i + 1 < s.len() && s[i] == '/' && s[i + 1] == '/')
        invariant
            i <= s@.len(),
            comment_from(s@, 0) == comment_from(s@, i as int),
            r@ == s@.take(i as int),
        decreases s.len() - i,
    {
        r.push(s[i]);
        i = i + 1;
        assert(r@ =~= s@.take(i as int));
    }
    r
}

/// A line without its comment and trimmed, or `None` where nothing is left.
pub fn normalize_line(line: &str) -> (r: Option<String>)
    ensures
        r is Some <==> normalized(line@).len() > 0,
        r is Some ==> r->0@ == normalized(line@),
{
    let cs = chars_of(line);
    let code = code_part_of(cs.as_slice());
    let t = trim_chars(code.as_slice());
    if t.len() == 0 {
        None
    } else {
        Some(string_of(&t))
    }
}

/// Relies on `String: FromIterator<char>`: the string holds the characters in order.
#[verifier::external_body]
pub fn string_of(cs: &Vec<char>) -> (r: String)
    ensures
        r@ == cs@,
{
    cs.iter().collect()
}

/// Where the line that starts at `i` ends: the next `\n`, or `s.len()`.
pub open spec fn newline_from(s: Seq<char>, i: int) -> int
    decreases s.len() - i,
{
    if i >= s.len() {
        s.len() as int
    } else if s[i] == '\n' {
        i
    } else {
        newline_from(s, i + 1)
    }
}

/// A line without the `\r` that ends it, if any.
pub open spec fn strip_cr(l: Seq<char>) -> Seq<char> {
    if l.len() > 0 && l.last() == '\r' { l.drop_last() } else { l }
}

/// The lines of a text: split at `\n`, each without a final `\r`; a final
/// line break starts no further line.
pub open spec fn lines_of(s: Seq<char>) -> Seq<Seq<char>>
    decreases s.len(),
{
    if s.len() == 0 {
        Seq::empty()
    } else {
        let k = newline_from(s, 0);
        if k >= s.len() || k < 0 {
            seq![strip_cr(s)]
        } else {
            seq![strip_cr(s.take(k))] + lines_of(s.skip(k + 1))
        }
    }
}

/// Splits text into lines as `lines_of` says.
pub fn split_lines(s: &[char]) -> (r: Vec<Vec<char>>)
    ensures
        r@.len() == lines_of(s@).len(),
        forall|i: int| 0 <= i < r@.len() ==> (#[trigger] r@[i])@ == lines_of(s@)[i],
{
    let mut out: Vec<Vec<char>> = Vec::new();
    let ghost views: Seq<Seq<char>> = Seq::empty();
    let mut pos: usize = 0;
    assert(s@.skip(0) =~= s@);
    while pos < s.len()
        invariant
            pos <= s@.len(),
            out@.len() == views.len(),
            forall|i: int| 0 <= i < out@.len() ==> (#[trigger] out@[i])@ == views[i],
            views + lines_of(s@.skip(pos as int)) == lines_of(s@),
        decreases s.len() - pos,
    {
        let ghost rest = s@.skip(pos as int);
        let mut line: Vec<char> = Vec::new();
        let mut k: usize = pos;
        while k < s.len() && s[k] != '\n'
            invariant
                pos <= k <= s@.len(),
                rest == s@.skip(pos as int),
                newline_from(rest, 0) == newline_from(rest, k - pos),
                line@ == s@.subrange(pos as int, k as int),
            decreases s.len() - k,
        {
            line.push(s[k]);
            k = k + 1;
            assert(line@ =~= s@.subrange(pos as int, k as int));
        }
        assert(line@ =~= rest.take(k - pos));
        if line.len() > 0 && line[line.len() - 1] == '\r' {
            line.pop();
        }
        proof {
            assert(rest.len() > 0);
            if k < s.len() {
                assert(rest.skip(k - pos + 1) =~= s@.skip(k + 1));
            } else {
                assert(rest.take(k - pos) =~= rest);
            }
            views = views.push(line@);
        }
        out.push(line);
        pos = if k < s.len() { k + 1 } else { k };
        proof {
            if pos == s.len() {
                assert(s@.skip(pos as int) =~= Seq::<char>::empty());
            }
            assert(views + lines_of(s@.skip(pos as int)) =~= lines_of(s@));
        }
    }
    assert(s@.skip(pos as int) =~= Seq::<char>::empty());
    assert(views =~= lines_of(s@));
    out
}

} // verus!
