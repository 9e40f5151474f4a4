//! Character-level text operations: whitespace, trimming, and the three
//! splitting disciplines the library needs (lines, space-separated fields,
//! whitespace-separated tokens).

use vstd::prelude::*;

verus! {

/// Whitespace for this library: space, tab, carriage return, line feed.
pub open spec fn is_space_spec(c: char) -> bool {
    c == ' ' || c == '\t' || c == '\r' || c == '\n'
}

#[verifier::when_used_as_spec(is_space_spec)]
pub fn is_space(c: char) -> (r: bool)
    ensures
        r == is_space_spec(c),
{
    c == ' ' || c == '\t' || c == '\r' || c == '\n'
}

pub open spec fn trim_start_spec(s: Seq<char>) -> Seq<char>
    decreases s.len(),
{
    if s.len() > 0 && is_space_spec(s[0]) {
        trim_start_spec(s.skip(1))
    } else {
        s
    }
}

pub open spec fn trim_end_spec(s: Seq<char>) -> Seq<char>
    decreases s.len(),
{
    if s.len() > 0 && is_space_spec(s.last()) {
        trim_end_spec(s.drop_last())
    } else {
        s
    }
}

/// The sequence with leading and trailing whitespace removed.
pub open spec fn trim_spec(s: Seq<char>) -> Seq<char> {
    trim_end_spec(trim_start_spec(s))
}

/// Remove leading and trailing whitespace.
pub fn trim(s: &str) -> (r: String)
    ensures
        r@ == trim_spec(s@),
{
    let n: usize = s.unicode_len();
    let mut lo: usize = 0;
    proof {
        assert(s@.skip(0) =~= s@);
    }
    while lo < n && is_space(s.get_char(lo))
        invariant
            n == s@.len(),
            lo <= n,
            trim_start_spec(s@) == trim_start_spec(s@.skip(lo as int)),
        decreases n - lo,
    {
        proof {
            assert(s@.skip(lo as int).skip(1) =~= s@.skip(lo as int + 1));
        }
        lo = lo + 1;
    }
    proof {
        assert(trim_start_spec(s@.skip(lo as int)) == s@.skip(lo as int));
    }
    let mut hi: usize = n;
    while hi > lo && is_space(s.get_char(hi - 1))
        invariant
            n == s@.len(),
            lo <= hi <= n,
            trim_start_spec(s@) == s@.skip(lo as int),
            trim_end_spec(s@.skip(lo as int)) == trim_end_spec(s@.subrange(lo as int, hi as int)),
        decreases hi,
    {
        proof {
            assert(s@.subrange(lo as int, hi as int).drop_last() =~= s@.subrange(
                lo as int,
                hi as int - 1,
            ));
        }
        hi = hi - 1;
    }
    proof {
        assert(s@.skip(lo as int) =~= s@.subrange(lo as int, n as int));
        assert(trim_end_spec(s@.subrange(lo as int, hi as int)) == s@.subrange(
            lo as int,
            hi as int,
        ));
    }
    String::from_str(s.substring_char(lo, hi))
}

/// A sequence with one trailing carriage return removed, if present.
pub open spec fn strip_cr(l: Seq<char>) -> Seq<char> {
    if l.len() > 0 && l.last() == '\r' {
        l.drop_last()
    } else {
        l
    }
}

fn strip_cr_exec(s: &String) -> (r: String)
    ensures
        r@ == strip_cr(s@),
{
    let n: usize = s.as_str().unicode_len();
    if n > 0 && s.as_str().get_char(n - 1) == '\r' {
        proof {
            assert(s@.subrange(0, n as int - 1) =~= s@.drop_last());
        }
        String::from_str(s.as_str().substring_char(0, n - 1))
    } else {
        s.clone()
    }
}

/// The segments of `s` ended by each newline, plus the still-open final
/// segment; a carriage return immediately before a newline is dropped.
pub open spec fn raw_lines(s: Seq<char>) -> Seq<Seq<char>>
    decreases s.len(),
{
    if s.len() == 0 {
        seq![Seq::<char>::empty()]
    } else {
        let r = raw_lines(s.drop_last());
        if s.last() == '\n' {
            r.update(r.len() - 1, strip_cr(r.last())).push(Seq::<char>::empty())
        } else {
            r.update(r.len() - 1, r.last().push(s.last()))
        }
    }
}

pub proof fn lemma_raw_lines_len(s: Seq<char>)
    ensures
        raw_lines(s).len() >= 1,
    decreases s.len(),
{
    if s.len() > 0 {
        lemma_raw_lines_len(s.drop_last());
    }
}

/// The lines of a document: segments separated by `'\n'`, each losing one
/// carriage return before the separator (or at the end of the document), and
/// with no final empty line when the document ends in a newline.
pub open spec fn lines_of(s: Seq<char>) -> Seq<Seq<char>> {
    if s.len() == 0 {
        Seq::empty()
    } else if s.last() == '\n' {
        raw_lines(s).drop_last()
    } else {
        let r = raw_lines(s);
        r.update(r.len() - 1, strip_cr(r.last()))
    }
}

/// Split a document into its lines.
pub fn split_lines(text: &str) -> (r: Vec<String>)
    ensures
        r.deep_view() == lines_of(text@),
{
    let n: usize = text.unicode_len();
    let mut res: Vec<String> = Vec::new();
    let mut cur: String = String::new();
    let mut i: usize = 0;
    while i < n
        invariant
            n == text@.len(),
            i <= n,
            raw_lines(text@.take(i as int)) == res.deep_view().push(cur@),
        decreases n - i,
    {
        let c = text.get_char(i);
        proof {
            assert(text@.take(i as int + 1).drop_last() =~= text@.take(i as int));
            lemma_raw_lines_len(text@.take(i as int));
        }
        if c == '\n' {
            let closed = strip_cr_exec(&cur);
            res.push(closed);
            cur = String::new();
            proof {
                assert(raw_lines(text@.take(i as int + 1)) =~= res.deep_view().push(cur@));
            }
        } else {
            let ghost old_cur = cur@;
            cur.append(text.substring_char(i, i + 1));
            proof {
                assert(cur@ =~= old_cur.push(text@[i as int]));
                assert(raw_lines(text@.take(i as int + 1)) =~= res.deep_view().push(cur@));
            }
        }
        i = i + 1;
    }
    proof {
        assert(text@.take(n as int) =~= text@);
    }
    if n == 0 {
        proof {
            assert(res.deep_view().len() == 0);
            assert(res.deep_view() =~= lines_of(text@));
        }
        res
    } else if text.get_char(n - 1) == '\n' {
        proof {
            assert(raw_lines(text@).drop_last() =~= res.deep_view());
        }
        res
    } else {
        let closed = strip_cr_exec(&cur);
        res.push(closed);
        proof {
            lemma_raw_lines_len(text@);
            assert(lines_of(text@) =~= res.deep_view());
        }
        res
    }
}

/// The segments of `s` between single spaces, plus the still-open final
/// segment, kept verbatim (empty segments included).
pub open spec fn raw_fields(s: Seq<char>) -> Seq<Seq<char>>
    decreases s.len(),
{
    if s.len() == 0 {
        seq![Seq::<char>::empty()]
    } else {
        let r = raw_fields(s.drop_last());
        if s.last() == ' ' {
            r.push(Seq::<char>::empty())
        } else {
            r.update(r.len() - 1, r.last().push(s.last()))
        }
    }
}

/// The fields whose trimmed form is nonempty, in order, verbatim.
pub open spec fn kept_fields(fs: Seq<Seq<char>>) -> Seq<Seq<char>>
    decreases fs.len(),
{
    if fs.len() == 0 {
        Seq::empty()
    } else {
        let r = kept_fields(fs.drop_last());
        if trim_spec(fs.last()).len() > 0 {
            r.push(fs.last())
        } else {
            r
        }
    }
}

/// The names a tag heading's remainder declares: split on single spaces,
/// fields that are only whitespace dropped, the rest kept verbatim.
pub open spec fn tag_names_of(s: Seq<char>) -> Seq<Seq<char>> {
    kept_fields(raw_fields(s))
}

/// Split on single spaces and drop the fields that are only whitespace.
pub fn split_fields(s: &str) -> (r: Vec<String>)
    ensures
        r.deep_view() == tag_names_of(s@),
{
    let n: usize = s.unicode_len();
    let mut res: Vec<String> = Vec::new();
    let mut cur: String = String::new();
    let mut i: usize = 0;
    while i < n
        invariant
            n == s@.len(),
            i <= n,
            raw_fields(s@.take(i as int)).last() == cur@,
            raw_fields(s@.take(i as int)).len() >= 1,
            kept_fields(raw_fields(s@.take(i as int)).drop_last()) == res.deep_view(),
        decreases n - i,
    {
        let c = s.get_char(i);
        proof {
            assert(s@.take(i as int + 1).drop_last() =~= s@.take(i as int));
        }
        if c == ' ' {
            let t = trim(cur.as_str());
            if t.as_str().unicode_len() > 0 {
                res.push(cur);
            }
            cur = String::new();
            proof {
                let rf = raw_fields(s@.take(i as int + 1));
                assert(rf.drop_last() =~= raw_fields(s@.take(i as int)));
            }
        } else {
            let ghost old_cur = cur@;
            cur.append(s.substring_char(i, i + 1));
            proof {
                assert(cur@ =~= old_cur.push(s@[i as int]));
                let rf0 = raw_fields(s@.take(i as int));
                let rf = raw_fields(s@.take(i as int + 1));
                assert(rf.drop_last() =~= rf0.drop_last());
            }
        }
        i = i + 1;
    }
    proof {
        assert(s@.take(n as int) =~= s@);
    }
    let t = trim(cur.as_str());
    if t.as_str().unicode_len() > 0 {
        res.push(cur);
    }
    res
}

/// The segments of `s` between whitespace characters, plus the still-open
/// final segment (empty segments included).
pub open spec fn raw_ws_segs(s: Seq<char>) -> Seq<Seq<char>>
    decreases s.len(),
{
    if s.len() == 0 {
        seq![Seq::<char>::empty()]
    } else {
        let r = raw_ws_segs(s.drop_last());
        if is_space_spec(s.last()) {
            r.push(Seq::<char>::empty())
        } else {
            r.update(r.len() - 1, r.last().push(s.last()))
        }
    }
}

/// The nonempty segments, in order.
pub open spec fn nonempty_segs(fs: Seq<Seq<char>>) -> Seq<Seq<char>>
    decreases fs.len(),
{
    if fs.len() == 0 {
        Seq::empty()
    } else {
        let r = nonempty_segs(fs.drop_last());
        if fs.last().len() > 0 {
            r.push(fs.last())
        } else {
            r
        }
    }
}

/// The whitespace-separated tokens of a message, in order of appearance.
pub open spec fn ws_tokens_of(s: Seq<char>) -> Seq<Seq<char>> {
    nonempty_segs(raw_ws_segs(s))
}

/// Every token of a message is nonempty.
pub proof fn lemma_ws_tokens_nonempty(fs: Seq<Seq<char>>)
    ensures
        forall|k: int|
            0 <= k < nonempty_segs(fs).len() ==> (#[trigger] nonempty_segs(fs)[k]).len() > 0,
    decreases fs.len(),
{
    if fs.len() > 0 {
        lemma_ws_tokens_nonempty(fs.drop_last());
        let r = nonempty_segs(fs.drop_last());
        assert forall|k: int|
            0 <= k < nonempty_segs(fs).len() implies (#[trigger] nonempty_segs(fs)[k]).len()
            > 0 by {
            if k < r.len() {
                assert(nonempty_segs(fs)[k] == r[k]);
            }
        }
    }
}

/// Split a message into its whitespace-separated tokens.
pub fn ws_tokens(s: &str) -> (r: Vec<String>)
    ensures
        r.deep_view() == ws_tokens_of(s@),
{
    let n: usize = s.unicode_len();
    let mut res: Vec<String> = Vec::new();
    let mut cur: String = String::new();
    let mut i: usize = 0;
    while i < n
        invariant
            n == s@.len(),
            i <= n,
            raw_ws_segs(s@.take(i as int)).last() == cur@,
            raw_ws_segs(s@.take(i as int)).len() >= 1,
            nonempty_segs(raw_ws_segs(s@.take(i as int)).drop_last()) == res.deep_view(),
        decreases n - i,
    {
        let c = s.get_char(i);
        proof {
            assert(s@.take(i as int + 1).drop_last() =~= s@.take(i as int));
        }
        if is_space(c) {
            if cur.as_str().unicode_len() > 0 {
                res.push(cur);
            }
            cur = String::new();
            proof {
                let rf = raw_ws_segs(s@.take(i as int + 1));
                assert(rf.drop_last() =~= raw_ws_segs(s@.take(i as int)));
            }
        } else {
            let ghost old_cur = cur@;
            cur.append(s.substring_char(i, i + 1));
            proof {
                assert(cur@ =~= old_cur.push(s@[i as int]));
                let rf0 = raw_ws_segs(s@.take(i as int));
                let rf = raw_ws_segs(s@.take(i as int + 1));
                assert(rf.drop_last() =~= rf0.drop_last());
            }
        }
        i = i + 1;
    }
    proof {
        assert(s@.take(n as int) =~= s@);
    }
    if cur.as_str().unicode_len() > 0 {
        res.push(cur);
    }
    res
}

} // verus!
