//! The tag-resolution engine.
//!
//! A message's whitespace-separated tokens are scanned from the end toward
//! the start. The scan stops for good at the first token that does not begin
//! with `/`; each `/`-prefixed token before that contributes at most one
//! report line, from the first enabled standard in registry order that
//! defines it, and unknown tokens are skipped silently. Lines appear in scan
//! order, so the message's last token comes first.

use vstd::prelude::*;

use crate::cache::ids_contain;
use crate::standard::{registry_wf, Standard};
use crate::text::{
    lemma_ws_tokens_nonempty, raw_ws_segs, trim, trim_spec, ws_tokens, ws_tokens_of,
};

verus! {

/// The report line for a token defined by standard `id` with body `expl`.
pub open spec fn line_for(id: Seq<char>, expl: Seq<char>) -> Seq<char> {
    "**"@ + id + "**: "@ + trim_spec(expl)
}

/// The first enabled standard, in registry order, that defines `tok`, with
/// the explanation it gives.
pub open spec fn first_match(
    regs: Seq<(String, Standard)>,
    enabled: Seq<Seq<char>>,
    tok: Seq<char>,
) -> Option<(Seq<char>, Seq<char>)>
    decreases regs.len(),
{
    if regs.len() == 0 {
        None
    } else if enabled.contains(regs[0].0@) && regs[0].1.model().tags.contains_key(tok) {
        Some((regs[0].0@, regs[0].1.model().tags[tok]))
    } else {
        first_match(regs.skip(1), enabled, tok)
    }
}

/// The report lines of the backward scan over `toks`, in scan order.
pub open spec fn scan_rev(
    toks: Seq<Seq<char>>,
    enabled: Seq<Seq<char>>,
    regs: Seq<(String, Standard)>,
) -> Seq<Seq<char>>
    decreases toks.len(),
{
    if toks.len() == 0 {
        Seq::empty()
    } else {
        let t = toks.last();
        if t.len() == 0 {
            scan_rev(toks.drop_last(), enabled, regs)
        } else if t[0] != '/' {
            Seq::empty()
        } else {
            match first_match(regs, enabled, t) {
                None => scan_rev(toks.drop_last(), enabled, regs),
                Some(p) => seq![line_for(p.0, p.1)] + scan_rev(toks.drop_last(), enabled, regs),
            }
        }
    }
}

/// Report lines joined by single newlines.
pub open spec fn join_nl(lines: Seq<Seq<char>>) -> Seq<char>
    decreases lines.len(),
{
    if lines.len() == 0 {
        Seq::empty()
    } else if lines.len() == 1 {
        lines[0]
    } else {
        join_nl(lines.drop_last()) + seq!['\n'] + lines.last()
    }
}

/// The whole report for a message: the joined scan lines, or the fixed
/// placeholder when no token matched.
pub open spec fn report_spec(
    text: Seq<char>,
    enabled: Seq<Seq<char>>,
    regs: Seq<(String, Standard)>,
) -> Seq<char> {
    let lines = scan_rev(ws_tokens_of(text), enabled, regs);
    if lines.len() == 0 {
        "*No tone tags were found*"@
    } else {
        join_nl(lines)
    }
}

/// The scan never reads past a stopping token: whenever some token lacks the
/// `/` prefix, every token before it is ignored, and the report is exactly
/// that of the tokens after it.
pub proof fn lemma_scan_stops(
    toks: Seq<Seq<char>>,
    enabled: Seq<Seq<char>>,
    regs: Seq<(String, Standard)>,
    k: int,
)
    requires
        0 <= k < toks.len(),
        toks[k].len() > 0,
        toks[k][0] != '/',
    ensures
        scan_rev(toks, enabled, regs) == scan_rev(toks.skip(k + 1), enabled, regs),
    decreases toks.len(),
{
    if k == toks.len() - 1 {
        assert(toks.last() == toks[k]);
        assert(scan_rev(toks, enabled, regs) =~= Seq::<Seq<char>>::empty());
        assert(scan_rev(toks.skip(k + 1), enabled, regs) =~= Seq::<Seq<char>>::empty());
    } else {
        lemma_scan_stops(toks.drop_last(), enabled, regs, k);
        assert(toks.drop_last()[k] == toks[k]);
        assert(toks.drop_last().skip(k + 1) =~= toks.skip(k + 1).drop_last());
        let t = toks.last();
        assert(toks.skip(k + 1).last() == t);
        assert(toks.skip(k + 1).len() > 0);
    }
}

fn first_match_exec<'a>(
    registry: &'a Vec<(String, Standard)>,
    enabled: &Vec<String>,
    tok: &String,
) -> (r: Option<(&'a String, &'a String)>)
    requires
        registry_wf(registry@),
    ensures
        match first_match(registry@, enabled.deep_view(), tok@) {
            None => r is None,
            Some(p) => r matches Some(q) && q.0@ == p.0 && q.1@ == p.1,
        },
{
    let n = registry.len();
    let mut j: usize = 0;
    proof {
        assert(registry@.skip(0) =~= registry@);
    }
    while j < n
        invariant
            n == registry.len(),
            j <= n,
            registry_wf(registry@),
            first_match(registry@, enabled.deep_view(), tok@) == first_match(
                registry@.skip(j as int),
                enabled.deep_view(),
                tok@,
            ),
        decreases n - j,
    {
        proof {
            assert(registry@.skip(j as int)[0] == registry@[j as int]);
            assert(registry@.skip(j as int).skip(1) =~= registry@.skip(j as int + 1));
        }
        let entry = &registry[j];
        if ids_contain(enabled, &entry.0) {
            if let Some(ex) = entry.1.lookup_tag(tok) {
                return Some((&entry.0, ex));
            }
        }
        j = j + 1;
    }
    None
}

/// Build the report for a message, the user's enabled standard ids, and the
/// registry.
pub fn report_on(text: &str, enabled: &Vec<String>, registry: &Vec<(String, Standard)>) -> (r:
    String)
    requires
        registry_wf(registry@),
    ensures
        r@ == report_spec(text@, enabled.deep_view(), registry@),
{
    let toks = ws_tokens(text);
    let ghost full = toks.deep_view();
    let mut report = String::new();
    let ghost mut produced: Seq<Seq<char>> = Seq::empty();
    let mut stopped = false;
    let mut i: usize = toks.len();
    proof {
        assert(full.take(i as int) =~= full);
    }
    while i > 0 && !stopped
        invariant
            toks.deep_view() == full,
            full == ws_tokens_of(text@),
            i <= toks.len(),
            registry_wf(registry@),
            !stopped ==> scan_rev(full, enabled.deep_view(), registry@) == produced + scan_rev(
                full.take(i as int),
                enabled.deep_view(),
                registry@,
            ),
            stopped ==> scan_rev(full, enabled.deep_view(), registry@) == produced,
            report@ == join_nl(produced),
            produced.len() == 0 <==> report@.len() == 0,
        decreases 2 * i + (if stopped {
            0int
        } else {
            1int
        }),
    {
        let ghost tv = full.take(i as int);
        proof {
            lemma_ws_tokens_nonempty(raw_ws_segs(text@));
            assert(tv.last() == full[i as int - 1]);
            assert(tv.drop_last() =~= full.take(i as int - 1));
            assert(full[i as int - 1].len() > 0);
        }
        let tok = &toks[i - 1];
        if tok.as_str().get_char(0) != '/' {
            stopped = true;
            proof {
                assert(scan_rev(tv, enabled.deep_view(), registry@) =~= Seq::<Seq<char>>::empty());
                assert(produced + Seq::<Seq<char>>::empty() =~= produced);
            }
        } else {
            match first_match_exec(registry, enabled, tok) {
                None => {
                    proof {
                        assert(scan_rev(tv, enabled.deep_view(), registry@) == scan_rev(
                            tv.drop_last(),
                            enabled.deep_view(),
                            registry@,
                        ));
                    }
                },
                Some((id, ex)) => {
                    let ghost line = line_for(id@, ex@);
                    let ghost produced0 = produced;
                    let ghost report0 = report@;
                    if report.as_str().unicode_len() > 0 {
                        report.append("\n");
                    }
                    report.append("**");
                    report.append(id.as_str());
                    report.append("**: ");
                    let t = trim(ex.as_str());
                    report.append(t.as_str());
                    proof {
                        produced = produced.push(line);
                        reveal_strlit("\n");
                        if produced0.len() == 0 {
                            assert(report@ =~= line);
                            assert(join_nl(produced) == line) by {
                                assert(produced.len() == 1);
                                assert(produced[0] == line);
                            }
                        } else {
                            assert(produced.drop_last() =~= produced0);
                            assert(report@ =~= report0 + seq!['\n'] + line);
                            assert(join_nl(produced) == join_nl(produced0) + seq!['\n'] + line);
                        }
                        assert(line.len() >= 2) by {
                            reveal_strlit("**");
                        }
                        assert(scan_rev(tv, enabled.deep_view(), registry@) == seq![line]
                            + scan_rev(tv.drop_last(), enabled.deep_view(), registry@));
                        assert(produced0 + (seq![line] + scan_rev(
                            full.take(i as int - 1),
                            enabled.deep_view(),
                            registry@,
                        )) =~= produced + scan_rev(
                            full.take(i as int - 1),
                            enabled.deep_view(),
                            registry@,
                        ));
                    }
                },
            }
            i = i - 1;
        }
    }
    proof {
        if !stopped {
            assert(full.take(0) =~= Seq::<Seq<char>>::empty());
            assert(produced + Seq::<Seq<char>>::empty() =~= produced);
        }
        assert(scan_rev(full, enabled.deep_view(), registry@) == produced);
    }
    if report.as_str().unicode_len() == 0 {
        String::from_str("*No tone tags were found*")
    } else {
        report
    }
}

} // verus!
