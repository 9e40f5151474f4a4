//! The standard-document parser.
//!
//! A document is line-oriented. A line beginning with exactly one `#` opens a
//! title block; exactly two `#` open a tag block whose remainder lists the
//! tag names the block defines; three or more `#` are an error. Other lines
//! are content: trimmed and newline-joined into the open block's body. A new
//! heading (and the end of input) flushes the open block: a title block sets
//! title and description (at most one title block is allowed), a tag block
//! stores its body under every listed name. A document without a title is
//! rejected.

use vstd::prelude::*;

use crate::assoc::{assoc_map, keys_unique, lemma_assoc_map_index, lemma_assoc_map_remove};
use crate::text::{
    lines_of, split_fields, split_lines, tag_names_of, trim, trim_spec,
};

verus! {

/// Why a document was rejected.
#[derive(Clone, Copy, Debug, PartialEq, Eq, Structural)]
pub enum ParseError {
    /// A line began with three or more `#`.
    UnknownHeadingDepth,
    /// A content line appeared before any heading.
    MissingTag,
    /// A second title block appeared.
    DuplicateTitle,
    /// The document ended without a title block.
    NoTitle,
}

impl ParseError {
    /// The human-readable reason carried by the failure.
    pub fn message(&self) -> (r: &'static str)
        ensures
            *self == ParseError::UnknownHeadingDepth ==> r@ == "No rule defined for '###'"@,
            *self == ParseError::MissingTag ==> r@ == "Filling a missing tag"@,
            *self == ParseError::DuplicateTitle ==> r@ == "Title is already defined"@,
            *self == ParseError::NoTitle ==> r@ == "No title"@,
    {
        match self {
            ParseError::UnknownHeadingDepth => "No rule defined for '###'",
            ParseError::MissingTag => "Filling a missing tag",
            ParseError::DuplicateTitle => "Title is already defined",
            ParseError::NoTitle => "No title",
        }
    }
}

/// The open block of the single left-to-right pass.
pub ghost enum HeadModel {
    Title(Seq<char>),
    Tags(Seq<Seq<char>>),
}

/// The parser's state between lines.
pub ghost struct PState {
    pub cont: Option<Seq<char>>,
    pub head: Option<HeadModel>,
    pub title: Option<Seq<char>>,
    pub desc: Option<Seq<char>>,
    pub tags: Map<Seq<char>, Seq<char>>,
}

/// What a parsed document denotes.
pub ghost struct StdModel {
    pub title: Seq<char>,
    pub description: Seq<char>,
    pub tags: Map<Seq<char>, Seq<char>>,
}

pub open spec fn init_state() -> PState {
    PState {
        cont: None,
        head: None,
        title: None,
        desc: None,
        tags: Map::empty(),
    }
}

/// One block body stored under every name of a tag block's list.
pub open spec fn insert_all(
    m: Map<Seq<char>, Seq<char>>,
    names: Seq<Seq<char>>,
    body: Seq<char>,
) -> Map<Seq<char>, Seq<char>>
    decreases names.len(),
{
    if names.len() == 0 {
        m
    } else {
        insert_all(m, names.drop_last(), body).insert(names.last(), body)
    }
}

/// Flushing the open block when a new heading (or the end of input) arrives.
pub open spec fn flush_spec(st: PState) -> Result<PState, ParseError> {
    match st.head {
        None => Ok(PState { cont: None, head: None, ..st }),
        Some(HeadModel::Title(t)) => if st.title is Some {
            Err(ParseError::DuplicateTitle)
        } else {
            Ok(
                PState {
                    cont: None,
                    head: None,
                    title: Some(t),
                    desc: Some(
                        match st.cont {
                            Some(c) => c,
                            None => Seq::empty(),
                        },
                    ),
                    tags: st.tags,
                },
            )
        },
        Some(HeadModel::Tags(names)) => Ok(
            PState {
                cont: None,
                head: None,
                tags: insert_all(
                    st.tags,
                    names,
                    match st.cont {
                        Some(c) => c,
                        None => Seq::empty(),
                    },
                ),
                ..st
            },
        ),
    }
}

pub open spec fn starts_hash(line: Seq<char>, k: int) -> bool {
    line.len() >= k && forall|i: int| 0 <= i < k ==> line[i] == '#'
}

/// One line of the pass.
pub open spec fn step_spec(st: PState, line: Seq<char>) -> Result<PState, ParseError> {
    if starts_hash(line, 3) {
        Err(ParseError::UnknownHeadingDepth)
    } else if starts_hash(line, 2) {
        match flush_spec(st) {
            Err(e) => Err(e),
            Ok(f) => Ok(
                PState {
                    cont: Some(Seq::empty()),
                    head: Some(HeadModel::Tags(tag_names_of(line.skip(2)))),
                    ..f
                },
            ),
        }
    } else if starts_hash(line, 1) {
        match flush_spec(st) {
            Err(e) => Err(e),
            Ok(f) => Ok(
                PState {
                    cont: Some(Seq::empty()),
                    head: Some(HeadModel::Title(trim_spec(line.skip(1)))),
                    ..f
                },
            ),
        }
    } else {
        match st.cont {
            None => Err(ParseError::MissingTag),
            Some(c) => Ok(PState { cont: Some(c + trim_spec(line) + seq!['\n']), ..st }),
        }
    }
}

/// The left fold of `step_spec` over a document's lines.
pub open spec fn parse_lines_spec(lines: Seq<Seq<char>>) -> Result<PState, ParseError>
    decreases lines.len(),
{
    if lines.len() == 0 {
        Ok(init_state())
    } else {
        match parse_lines_spec(lines.drop_last()) {
            Err(e) => Err(e),
            Ok(st) => step_spec(st, lines.last()),
        }
    }
}

/// The end of input: flush the open block, then demand a title.
pub open spec fn finish_spec(folded: Result<PState, ParseError>) -> Result<StdModel, ParseError> {
    match folded {
        Err(e) => Err(e),
        Ok(st) => match flush_spec(st) {
            Err(e) => Err(e),
            Ok(f) => match f.title {
                None => Err(ParseError::NoTitle),
                Some(t) => Ok(
                    StdModel {
                        title: t,
                        description: match f.desc {
                            Some(d) => d,
                            None => Seq::empty(),
                        },
                        tags: f.tags,
                    },
                ),
            },
        },
    }
}

/// What parsing a whole document yields.
pub open spec fn parse_doc(text: Seq<char>) -> Result<StdModel, ParseError> {
    finish_spec(parse_lines_spec(lines_of(text)))
}

/// Once a prefix of the lines has failed, the whole fold fails the same way.
pub proof fn lemma_parse_prefix_err(lines: Seq<Seq<char>>, k: int)
    requires
        0 <= k <= lines.len(),
        parse_lines_spec(lines.take(k)) is Err,
    ensures
        parse_lines_spec(lines) == parse_lines_spec(lines.take(k)),
    decreases lines.len() - k,
{
    if k < lines.len() {
        assert(lines.take(k + 1).drop_last() =~= lines.take(k));
        lemma_parse_prefix_err(lines, k + 1);
    } else {
        assert(lines.take(k) =~= lines);
    }
}

/// The description accumulated by a run of content lines: each line trimmed,
/// each followed by one newline.
pub open spec fn body_of(ls: Seq<Seq<char>>) -> Seq<char>
    decreases ls.len(),
{
    if ls.len() == 0 {
        Seq::empty()
    } else {
        body_of(ls.drop_last()) + trim_spec(ls.last()) + seq!['\n']
    }
}

proof fn lemma_title_only_fold(lines: Seq<Seq<char>>)
    requires
        lines.len() >= 1,
        starts_hash(lines[0], 1),
        !starts_hash(lines[0], 2),
        forall|i: int| 1 <= i < lines.len() ==> !starts_hash(#[trigger] lines[i], 1),
    ensures
        parse_lines_spec(lines) == Ok::<PState, ParseError>(
            PState {
                cont: Some(body_of(lines.skip(1))),
                head: Some(HeadModel::Title(trim_spec(lines[0].skip(1)))),
                title: None,
                desc: None,
                tags: Map::empty(),
            },
        ),
    decreases lines.len(),
{
    if lines.len() == 1 {
        assert(lines.drop_last().len() == 0);
        assert(lines.last() == lines[0]);
        assert(lines.skip(1) =~= Seq::<Seq<char>>::empty());
    } else {
        let front = lines.drop_last();
        assert(front[0] == lines[0]);
        assert forall|i: int| 1 <= i < front.len() implies !starts_hash(#[trigger] front[i], 1) by {
            assert(front[i] == lines[i]);
        }
        lemma_title_only_fold(front);
        let last = lines.last();
        assert(!starts_hash(last, 1));
        assert(!starts_hash(last, 2)) by {
            if starts_hash(last, 2) {
                assert(last[0] == '#');
            }
        }
        assert(!starts_hash(last, 3)) by {
            if starts_hash(last, 3) {
                assert(last[0] == '#');
            }
        }
        assert(lines.skip(1).drop_last() =~= front.skip(1));
        assert(lines.skip(1).last() == last);
        assert(lines.skip(1).len() >= 1);
        assert(body_of(lines.skip(1)) == body_of(front.skip(1)) + trim_spec(last) + seq!['\n']);
    }
}

/// A document whose first line is a title heading and whose other lines are
/// all content parses to exactly that title (trimmed), the joined trimmed
/// content as the description, and an empty tag table.
pub proof fn lemma_title_only_document(lines: Seq<Seq<char>>)
    requires
        lines.len() >= 1,
        starts_hash(lines[0], 1),
        !starts_hash(lines[0], 2),
        forall|i: int| 1 <= i < lines.len() ==> !starts_hash(#[trigger] lines[i], 1),
    ensures
        finish_spec(parse_lines_spec(lines)) == Ok::<StdModel, ParseError>(
            StdModel {
                title: trim_spec(lines[0].skip(1)),
                description: body_of(lines.skip(1)),
                tags: Map::empty(),
            },
        ),
{
    lemma_title_only_fold(lines);
}

/// A line of three or more `#` anywhere makes the whole parse fail, whatever
/// stands around it.
pub proof fn lemma_deep_heading_errs(lines: Seq<Seq<char>>, k: int)
    requires
        0 <= k < lines.len(),
        starts_hash(lines[k], 3),
    ensures
        finish_spec(parse_lines_spec(lines)) is Err,
{
    assert(lines.take(k + 1).drop_last() =~= lines.take(k));
    assert(lines.take(k + 1).last() == lines[k]);
    assert(parse_lines_spec(lines.take(k + 1)) is Err);
    lemma_parse_prefix_err(lines, k + 1);
}

/// A content line before any heading makes the whole parse fail with the
/// missing-tag error.
pub proof fn lemma_content_before_heading_errs(lines: Seq<Seq<char>>)
    requires
        lines.len() >= 1,
        !starts_hash(lines[0], 1),
    ensures
        finish_spec(parse_lines_spec(lines)) == Err::<StdModel, ParseError>(ParseError::MissingTag),
    decreases lines.len(),
{
    assert(lines.take(1).drop_last() =~= lines.take(0));
    assert(lines.take(0).len() == 0);
    assert(lines.take(1).last() == lines[0]);
    assert(!starts_hash(lines[0], 2)) by {
        if starts_hash(lines[0], 2) {
            assert(lines[0][0] == '#');
        }
    }
    assert(!starts_hash(lines[0], 3)) by {
        if starts_hash(lines[0], 3) {
            assert(lines[0][0] == '#');
        }
    }
    assert(parse_lines_spec(lines.take(0)) == Ok::<PState, ParseError>(init_state()));
    assert(step_spec(init_state(), lines[0]) == Err::<PState, ParseError>(ParseError::MissingTag));
    assert(parse_lines_spec(lines.take(1)) == Err::<PState, ParseError>(ParseError::MissingTag));
    lemma_parse_prefix_err(lines, 1);
}

/// One named, parsed body of tag definitions.
#[derive(Debug)]
pub struct Standard {
    pub title: String,
    pub description: String,
    /// Tag name to explanation body; keys unique.
    pub tags: Vec<(String, String)>,
}

impl Standard {
    /// The tag table holds each name once.
    pub open spec fn wf(&self) -> bool {
        keys_unique(self.tags.deep_view())
    }

    pub open spec fn model(&self) -> StdModel {
        StdModel {
            title: self.title@,
            description: self.description@,
            tags: assoc_map(self.tags.deep_view()),
        }
    }

    /// The explanation this standard gives for a token, if any.
    pub fn lookup_tag(&self, tok: &String) -> (r: Option<&String>)
        requires
            self.wf(),
        ensures
            r is Some <==> self.model().tags.contains_key(tok@),
            r matches Some(v) ==> v@ == self.model().tags[tok@],
    {
        let n = self.tags.len();
        let mut i: usize = 0;
        while i < n
            invariant
                n == self.tags.len(),
                i <= n,
                self.wf(),
                forall|j: int| 0 <= j < i ==> (#[trigger] self.tags.deep_view()[j]).0 != tok@,
            decreases n - i,
        {
            if self.tags[i].0 == *tok {
                proof {
                    lemma_assoc_map_index(self.tags.deep_view(), tok@);
                    assert(self.tags.deep_view()[i as int].0 == tok@);
                }
                return Some(&self.tags[i].1);
            }
            i = i + 1;
        }
        proof {
            lemma_assoc_map_index(self.tags.deep_view(), tok@);
        }
        None
    }
}

/// Store `body` under `name`, overwriting an earlier entry for the same name.
fn insert_tag(tags: &mut Vec<(String, String)>, name: String, body: String)
    requires
        keys_unique(old(tags).deep_view()),
    ensures
        keys_unique(final(tags).deep_view()),
        assoc_map(final(tags).deep_view()) == assoc_map(old(tags).deep_view()).insert(
            name@,
            body@,
        ),
{
    let ghost ps0 = tags.deep_view();
    let n = tags.len();
    let mut i: usize = 0;
    while i < n
        invariant
            n == tags.len(),
            i <= n,
            tags.deep_view() == ps0,
            ps0 == old(tags).deep_view(),
            keys_unique(ps0),
            forall|j: int| 0 <= j < i ==> (#[trigger] ps0[j]).0 != name@,
        decreases n - i,
    {
        if tags[i].0 == name {
            assert(ps0[i as int].0 == name@);
            let _ = tags.remove(i);
            tags.push((name, body));
            proof {
                lemma_assoc_map_remove(ps0, i as int);
                let removed = ps0.remove(i as int);
                assert(tags.deep_view().drop_last() =~= removed);
                assert(tags.deep_view().last() == (name@, body@));
                assert(assoc_map(tags.deep_view()) == assoc_map(removed).insert(name@, body@));
                assert(assoc_map(removed).insert(name@, body@) =~= assoc_map(ps0).insert(
                    name@,
                    body@,
                ));
                assert forall|a: int, b: int|
                    0 <= a < b < tags.deep_view().len() implies (
                #[trigger] tags.deep_view()[a]).0 != (#[trigger] tags.deep_view()[b]).0 by {
                    if b < tags.deep_view().len() - 1 {
                        assert(removed[a] == tags.deep_view()[a]);
                        assert(removed[b] == tags.deep_view()[b]);
                    } else {
                        assert(tags.deep_view()[b].0 == name@);
                        assert(removed[a] == tags.deep_view()[a]);
                        let a0 = if a < i {
                            a
                        } else {
                            a + 1
                        };
                        assert(removed[a] == ps0[a0]);
                        if a0 != i {
                            assert(ps0[a0].0 != ps0[i as int].0);
                        }
                    }
                }
            }
            return ;
        }
        i = i + 1;
    }
    tags.push((name, body));
    proof {
        assert(tags.deep_view().drop_last() =~= ps0);
        assert(tags.deep_view().last() == (name@, body@));
        assert forall|a: int, b: int|
            0 <= a < b < tags.deep_view().len() implies (#[trigger] tags.deep_view()[a]).0 != (
        #[trigger] tags.deep_view()[b]).0 by {
            if b < tags.deep_view().len() - 1 {
                assert(ps0[a] == tags.deep_view()[a]);
                assert(ps0[b] == tags.deep_view()[b]);
            } else {
                assert(ps0[a] == tags.deep_view()[a]);
            }
        }
    }
}

/// The open block of the executable pass.
pub enum Head {
    Title(String),
    Tags(Vec<String>),
}

pub open spec fn head_view(h: Option<Head>) -> Option<HeadModel> {
    match h {
        None => None,
        Some(Head::Title(s)) => Some(HeadModel::Title(s@)),
        Some(Head::Tags(v)) => Some(HeadModel::Tags(v.deep_view())),
    }
}

pub open spec fn opt_view(o: Option<String>) -> Option<Seq<char>> {
    match o {
        None => None,
        Some(s) => Some(s@),
    }
}

/// The parser state the executable locals denote.
pub open spec fn machine_model(
    cont: Option<String>,
    head: Option<Head>,
    title: Option<String>,
    desc: Option<String>,
    tags: Seq<(Seq<char>, Seq<char>)>,
) -> PState {
    PState {
        cont: opt_view(cont),
        head: head_view(head),
        title: opt_view(title),
        desc: opt_view(desc),
        tags: assoc_map(tags),
    }
}

/// Flush the open block into title/description or the tag table.
fn flush_block(
    cont: &mut Option<String>,
    head: &mut Option<Head>,
    title: &mut Option<String>,
    desc: &mut Option<String>,
    tags: &mut Vec<(String, String)>,
) -> (r: Option<ParseError>)
    requires
        keys_unique(old(tags).deep_view()),
    ensures
        match flush_spec(
            machine_model(
                *old(cont),
                *old(head),
                *old(title),
                *old(desc),
                old(tags).deep_view(),
            ),
        ) {
            Ok(st) => r is None && keys_unique(final(tags).deep_view()) && machine_model(
                *final(cont),
                *final(head),
                *final(title),
                *final(desc),
                final(tags).deep_view(),
            ) == st,
            Err(e) => r == Some(e),
        },
{
    let ghost st0 = machine_model(*cont, *head, *title, *desc, tags.deep_view());
    let h = head.take();
    match h {
        None => {
            *cont = None;
            None
        },
        Some(Head::Title(s)) => {
            if title.is_some() {
                return Some(ParseError::DuplicateTitle);
            }
            *title = Some(s);
            let body = match cont.take() {
                Some(c) => c,
                None => String::new(),
            };
            *desc = Some(body);
            None
        },
        Some(Head::Tags(names)) => {
            let body = match cont.take() {
                Some(c) => c,
                None => String::new(),
            };
            let ghost names_v = names.deep_view();
            let ghost m0 = assoc_map(tags.deep_view());
            let n = names.len();
            let mut j: usize = 0;
            while j < n
                invariant
                    n == names.len(),
                    j <= n,
                    names.deep_view() == names_v,
                    keys_unique(tags.deep_view()),
                    assoc_map(tags.deep_view()) == insert_all(m0, names_v.take(j as int), body@),
                decreases n - j,
            {
                proof {
                    assert(names_v.take(j as int + 1).drop_last() =~= names_v.take(j as int));
                    assert(names_v.take(j as int + 1).last() == names_v[j as int]);
                }
                insert_tag(tags, names[j].clone(), body.clone());
                j = j + 1;
            }
            proof {
                assert(names_v.take(n as int) =~= names_v);
            }
            None
        },
    }
}

/// Parse one document into a [`Standard`].
///
/// The result is exactly what [`parse_doc`] says of the document's text: the
/// parsed title, description and tag table on success, and the first error of
/// the single left-to-right pass otherwise.
pub fn load_std(text: &str) -> (r: Result<Standard, ParseError>)
    ensures
        r is Ok <==> parse_doc(text@) is Ok,
        r matches Ok(s) ==> s.wf() && parse_doc(text@) == Ok::<StdModel, ParseError>(s.model()),
        r matches Err(e) ==> parse_doc(text@) == Err::<StdModel, ParseError>(e),
{
    let lines = split_lines(text);
    let ghost lv = lines.deep_view();
    proof {
        assert(lv == lines_of(text@));
    }
    let mut cont: Option<String> = None;
    let mut head: Option<Head> = None;
    let mut title: Option<String> = None;
    let mut desc: Option<String> = None;
    let mut tags: Vec<(String, String)> = Vec::new();
    let nlines = lines.len();
    let mut i: usize = 0;
    proof {
        assert(lv.take(0) =~= Seq::<Seq<char>>::empty());
        assert(tags.deep_view() =~= Seq::<(Seq<char>, Seq<char>)>::empty());
        assert(assoc_map(tags.deep_view()) =~= Map::<Seq<char>, Seq<char>>::empty());
    }
    while i < nlines
        invariant
            nlines == lines.len(),
            i <= nlines,
            lines.deep_view() == lv,
            lv == lines_of(text@),
            keys_unique(tags.deep_view()),
            parse_lines_spec(lv.take(i as int)) == Ok::<PState, ParseError>(
                machine_model(cont, head, title, desc, tags.deep_view()),
            ),
        decreases nlines - i,
    {
        let line = &lines[i];
        let n = line.as_str().unicode_len();
        proof {
            assert(lv.take(i as int + 1).drop_last() =~= lv.take(i as int));
            assert(lv.take(i as int + 1).last() == line@);
        }
        let h1 = n >= 1 && line.as_str().get_char(0) == '#';
        let h2 = h1 && n >= 2 && line.as_str().get_char(1) == '#';
        let h3 = h2 && n >= 3 && line.as_str().get_char(2) == '#';
        proof {
            assert(starts_hash(line@, 3) == h3);
            assert(starts_hash(line@, 2) == h2);
            assert(starts_hash(line@, 1) == h1);
        }
        if h3 {
            proof {
                lemma_parse_prefix_err(lv, i as int + 1);
            }
            return Err(ParseError::UnknownHeadingDepth);
        } else if h2 {
            if let Some(e) = flush_block(&mut cont, &mut head, &mut title, &mut desc, &mut tags) {
                proof {
                    lemma_parse_prefix_err(lv, i as int + 1);
                }
                return Err(e);
            }
            let rest = line.as_str().substring_char(2, n);
            proof {
                assert(rest@ =~= line@.skip(2));
            }
            let names = split_fields(rest);
            head = Some(Head::Tags(names));
            cont = Some(String::new());
        } else if h1 {
            if let Some(e) = flush_block(&mut cont, &mut head, &mut title, &mut desc, &mut tags) {
                proof {
                    lemma_parse_prefix_err(lv, i as int + 1);
                }
                return Err(e);
            }
            let rest = line.as_str().substring_char(1, n);
            proof {
                assert(rest@ =~= line@.skip(1));
            }
            head = Some(Head::Title(trim(rest)));
            cont = Some(String::new());
        } else {
            match &mut cont {
                None => {
                    proof {
                        lemma_parse_prefix_err(lv, i as int + 1);
                    }
                    return Err(ParseError::MissingTag);
                },
                Some(c) => {
                    let ghost c0 = c@;
                    let t = trim(line.as_str());
                    c.append(t.as_str());
                    c.append("\n");
                    proof {
                        reveal_strlit("\n");
                        assert(("\n")@ =~= seq!['\n']);
                        assert(c@ =~= c0 + trim_spec(line@) + seq!['\n']);
                    }
                },
            }
        }
        i = i + 1;
    }
    proof {
        assert(lv.take(nlines as int) =~= lv);
    }
    if let Some(e) = flush_block(&mut cont, &mut head, &mut title, &mut desc, &mut tags) {
        return Err(e);
    }
    match title {
        None => Err(ParseError::NoTitle),
        Some(t) => Ok(
            Standard {
                title: t,
                description: match desc {
                    Some(d) => d,
                    None => String::new(),
                },
                tags,
            },
        ),
    }
}

/// Every standard of a registry has a well-formed tag table.
pub open spec fn registry_wf(regs: Seq<(String, Standard)>) -> bool {
    forall|i: int| 0 <= i < regs.len() ==> (#[trigger] regs[i]).1.wf()
}

/// Parse the bundled standards, pairing each document with its fixed id.
///
/// Users start out with only the `core` standard enabled; the registry order
/// here is the declaration order that first-match-wins resolution follows.
pub fn load_all_stds(core_doc: &str, common_namtao_doc: &str) -> (r: Result<
    Vec<(String, Standard)>,
    ParseError,
>)
    ensures
        r is Ok <==> parse_doc(core_doc@) is Ok && parse_doc(common_namtao_doc@) is Ok,
        r matches Ok(v) ==> v@.len() == 2 && v@[0].0@ == "core"@ && v@[1].0@ == "common-namtao"@
            && registry_wf(v@) && parse_doc(core_doc@) == Ok::<
            StdModel,
            ParseError,
        >(v@[0].1.model()) && parse_doc(common_namtao_doc@) == Ok::<StdModel, ParseError>(
            v@[1].1.model(),
        ),
        r matches Err(e) ==> parse_doc(core_doc@) == Err::<StdModel, ParseError>(e) || (parse_doc(
            core_doc@,
        ) is Ok && parse_doc(common_namtao_doc@) == Err::<StdModel, ParseError>(e)),
{
    let core = match load_std(core_doc) {
        Ok(s) => s,
        Err(e) => {
            return Err(e);
        },
    };
    let common = match load_std(common_namtao_doc) {
        Ok(s) => s,
        Err(e) => {
            return Err(e);
        },
    };
    let mut v: Vec<(String, Standard)> = Vec::new();
    v.push((String::from_str("core"), core));
    v.push((String::from_str("common-namtao"), common));
    Ok(v)
}

} // verus!
