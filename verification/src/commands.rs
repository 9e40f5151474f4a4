//! Pure computations behind the preference commands: the standards listing a
//! user sees, and completion of a comma-separated standards argument.

use vstd::prelude::*;

use crate::cache::{ids_contain, sel_spec, select_stds};
use crate::report::join_nl;
use crate::standard::Standard;
use crate::text::{trim, trim_spec};

verus! {

/// The listing block of one registry entry.
pub open spec fn block_for(
    entry: (String, Standard),
    enabled: Seq<Seq<char>>,
    show_disabled: bool,
) -> Seq<char> {
    "## "@ + entry.1.title@ + "\n`"@ + entry.0@ + (if show_disabled && enabled.contains(entry.0@) {
        "` *(enabled)*\n"@
    } else {
        "`\n"@
    }) + trim_spec(entry.1.description@)
}

/// Is this entry shown at all?
pub open spec fn block_shown(
    entry: (String, Standard),
    enabled: Seq<Seq<char>>,
    show_disabled: bool,
) -> bool {
    show_disabled || enabled.contains(entry.0@)
}

/// The blocks of the shown entries, in registry order.
pub open spec fn listing_blocks(
    regs: Seq<(String, Standard)>,
    enabled: Seq<Seq<char>>,
    show_disabled: bool,
) -> Seq<Seq<char>>
    decreases regs.len(),
{
    if regs.len() == 0 {
        Seq::empty()
    } else {
        let r = listing_blocks(regs.drop_last(), enabled, show_disabled);
        if block_shown(regs.last(), enabled, show_disabled) {
            r.push(block_for(regs.last(), enabled, show_disabled))
        } else {
            r
        }
    }
}

/// The full listing: a fixed message when nothing is enabled and disabled
/// standards are not requested, else the shown blocks joined by newlines.
pub open spec fn listing_spec(
    regs: Seq<(String, Standard)>,
    enabled: Seq<Seq<char>>,
    show_disabled: bool,
) -> Seq<char> {
    if enabled.len() == 0 && !show_disabled {
        "*No standards are enabled*"@
    } else {
        join_nl(listing_blocks(regs, enabled, show_disabled))
    }
}

/// Render the listing of standards for a user: every registry entry when
/// `show_disabled` is set (the enabled ones marked), otherwise only the
/// enabled entries.
pub fn standards_listing(
    registry: &Vec<(String, Standard)>,
    enabled: &Vec<String>,
    show_disabled: bool,
) -> (r: String)
    ensures
        r@ == listing_spec(registry@, enabled.deep_view(), show_disabled),
{
    if enabled.len() == 0 && !show_disabled {
        return String::from_str("*No standards are enabled*");
    }
    let n = registry.len();
    let mut out = String::new();
    let ghost mut produced: Seq<Seq<char>> = Seq::empty();
    let mut i: usize = 0;
    proof {
        assert(registry@.take(0) =~= Seq::<(String, Standard)>::empty());
    }
    while i < n
        invariant
            n == registry.len(),
            i <= n,
            produced == listing_blocks(registry@.take(i as int), enabled.deep_view(), show_disabled),
            out@ == join_nl(produced),
            produced.len() == 0 <==> out@.len() == 0,
        decreases n - i,
    {
        proof {
            assert(registry@.take(i as int + 1).drop_last() =~= registry@.take(i as int));
            assert(registry@.take(i as int + 1).last() == registry@[i as int]);
        }
        let entry = &registry[i];
        let is_enabled = ids_contain(enabled, &entry.0);
        if show_disabled || is_enabled {
            let ghost block = block_for(registry@[i as int], enabled.deep_view(), show_disabled);
            let ghost produced0 = produced;
            let ghost out0 = out@;
            if out.as_str().unicode_len() > 0 {
                out.append("\n");
            }
            out.append("## ");
            out.append(entry.1.title.as_str());
            out.append("\n`");
            out.append(entry.0.as_str());
            if show_disabled && is_enabled {
                out.append("` *(enabled)*\n");
            } else {
                out.append("`\n");
            }
            let t = trim(entry.1.description.as_str());
            out.append(t.as_str());
            proof {
                produced = produced.push(block);
                reveal_strlit("\n");
                reveal_strlit("## ");
                if produced0.len() == 0 {
                    assert(out@ =~= block);
                    assert(join_nl(produced) == block) by {
                        assert(produced.len() == 1);
                        assert(produced[0] == block);
                    }
                } else {
                    assert(produced.drop_last() =~= produced0);
                    assert(out@ =~= out0 + seq!['\n'] + block);
                    assert(join_nl(produced) == join_nl(produced0) + seq!['\n'] + block);
                }
                assert(block.len() >= 3);
            }
        }
        i = i + 1;
    }
    proof {
        assert(registry@.take(n as int) =~= registry@);
    }
    out
}

/// The comma-separated segments of a string, empties kept; never empty
/// itself (the final segment is still open).
pub open spec fn comma_segs(s: Seq<char>) -> Seq<Seq<char>>
    decreases s.len(),
{
    if s.len() == 0 {
        seq![Seq::<char>::empty()]
    } else {
        let r = comma_segs(s.drop_last());
        if s.last() == ',' {
            r.push(Seq::<char>::empty())
        } else {
            r.update(r.len() - 1, r.last().push(s.last()))
        }
    }
}

pub proof fn lemma_comma_segs_len(s: Seq<char>)
    ensures
        comma_segs(s).len() >= 1,
    decreases s.len(),
{
    if s.len() > 0 {
        lemma_comma_segs_len(s.drop_last());
    }
}

/// Split on commas, keeping empty segments.
pub fn split_commas(s: &str) -> (r: Vec<String>)
    ensures
        r.deep_view() == comma_segs(s@),
        r.len() >= 1,
{
    let n: usize = s.unicode_len();
    let mut res: Vec<String> = Vec::new();
    let mut cur: String = String::new();
    let mut i: usize = 0;
    while i < n
        invariant
            n == s@.len(),
            i <= n,
            comma_segs(s@.take(i as int)) == res.deep_view().push(cur@),
        decreases n - i,
    {
        let c = s.get_char(i);
        proof {
            assert(s@.take(i as int + 1).drop_last() =~= s@.take(i as int));
            lemma_comma_segs_len(s@.take(i as int));
        }
        if c == ',' {
            res.push(cur);
            cur = String::new();
            proof {
                assert(comma_segs(s@.take(i as int + 1)) =~= res.deep_view().push(cur@));
            }
        } else {
            let ghost old_cur = cur@;
            cur.append(s.substring_char(i, i + 1));
            proof {
                assert(cur@ =~= old_cur.push(s@[i as int]));
                assert(comma_segs(s@.take(i as int + 1)) =~= res.deep_view().push(cur@));
            }
        }
        i = i + 1;
    }
    proof {
        assert(s@.take(n as int) =~= s@);
    }
    res.push(cur);
    res
}

/// Do the characters of `search` all appear in `id`, in order? (The greedy
/// left-to-right matching.)
pub open spec fn is_sub(search: Seq<char>, id: Seq<char>) -> bool
    decreases id.len(),
{
    if search.len() == 0 {
        true
    } else if id.len() == 0 {
        false
    } else if id[0] == search[0] {
        is_sub(search.skip(1), id.skip(1))
    } else {
        is_sub(search, id.skip(1))
    }
}

fn is_subsequence(search: &String, id: &String) -> (r: bool)
    ensures
        r == is_sub(search@, id@),
{
    let ns: usize = search.as_str().unicode_len();
    let ni: usize = id.as_str().unicode_len();
    let mut si: usize = 0;
    let mut ii: usize = 0;
    proof {
        assert(search@.skip(0) =~= search@);
        assert(id@.skip(0) =~= id@);
    }
    while si < ns && ii < ni
        invariant
            ns == search@.len(),
            ni == id@.len(),
            si <= ns,
            ii <= ni,
            is_sub(search@, id@) == is_sub(search@.skip(si as int), id@.skip(ii as int)),
        decreases ni - ii,
    {
        proof {
            assert(search@.skip(si as int).skip(1) =~= search@.skip(si as int + 1));
            assert(id@.skip(ii as int).skip(1) =~= id@.skip(ii as int + 1));
        }
        if id.as_str().get_char(ii) == search.as_str().get_char(si) {
            si = si + 1;
        }
        ii = ii + 1;
    }
    proof {
        if si == ns {
            assert(is_sub(search@.skip(si as int), id@.skip(ii as int)));
        }
    }
    si == ns
}

/// The joined prefix of already-chosen ids, as the completion text carries
/// it: comma-joined, plus a trailing comma when nonempty.
pub open spec fn fold_commas(ls: Seq<Seq<char>>) -> Seq<char>
    decreases ls.len(),
{
    if ls.len() == 0 {
        Seq::empty()
    } else {
        let a = fold_commas(ls.drop_last());
        if a.len() > 0 {
            a + seq![','] + ls.last()
        } else {
            ls.last()
        }
    }
}

pub open spec fn prefix_str(pre: Seq<Seq<char>>) -> Seq<char> {
    let f = fold_commas(pre);
    if f.len() > 0 {
        f + seq![',']
    } else {
        f
    }
}

/// The completions offered: for every registry id not already chosen that
/// the search fragment matches as a subsequence, the chosen prefix followed
/// by that id.
pub open spec fn completions(
    regs: Seq<(String, Standard)>,
    pre: Seq<Seq<char>>,
    pfx: Seq<char>,
    search: Seq<char>,
) -> Seq<Seq<char>>
    decreases regs.len(),
{
    if regs.len() == 0 {
        Seq::empty()
    } else {
        let r = completions(regs.drop_last(), pre, pfx, search);
        if !pre.contains(regs.last().0@) && is_sub(search, regs.last().0@) {
            r.push(pfx + regs.last().0@)
        } else {
            r
        }
    }
}

/// What completing a partial argument yields: the segments before the last
/// comma, validated and deduplicated against the registry, become the kept
/// prefix; the segment after it is the search fragment.
pub open spec fn autocomplete_spec(partial: Seq<char>, regs: Seq<(String, Standard)>) -> Seq<
    Seq<char>,
> {
    let parts = comma_segs(partial);
    let pre = sel_spec(parts.drop_last(), regs);
    completions(regs, pre, prefix_str(pre), parts.last())
}

/// Complete a partially typed comma-separated list of standard ids.
pub fn standards_autocomplete(partial: &str, registry: &Vec<(String, Standard)>) -> (r: Vec<
    String,
>)
    ensures
        r.deep_view() == autocomplete_spec(partial@, registry@),
{
    let mut parts = split_commas(partial);
    let ghost parts_v = parts.deep_view();
    let search = match parts.pop() {
        Some(s) => s,
        None => String::new(),
    };
    proof {
        assert(search@ == parts_v.last());
        assert(parts.deep_view() =~= parts_v.drop_last());
    }
    let pre = select_stds(&parts, registry);
    let ghost pre_v = pre.deep_view();
    let m = pre.len();
    let mut pfx = String::new();
    let mut k: usize = 0;
    proof {
        assert(pre_v.take(0) =~= Seq::<Seq<char>>::empty());
    }
    while k < m
        invariant
            m == pre.len(),
            pre.deep_view() == pre_v,
            k <= m,
            pfx@ == fold_commas(pre_v.take(k as int)),
        decreases m - k,
    {
        proof {
            assert(pre_v.take(k as int + 1).drop_last() =~= pre_v.take(k as int));
            assert(pre_v.take(k as int + 1).last() == pre_v[k as int]);
        }
        if pfx.as_str().unicode_len() > 0 {
            let ghost pfx0 = pfx@;
            pfx.append(",");
            pfx.append(pre[k].as_str());
            proof {
                reveal_strlit(",");
                assert(pfx@ =~= pfx0 + seq![','] + pre_v[k as int]);
            }
        } else {
            pfx.append(pre[k].as_str());
        }
        k = k + 1;
    }
    proof {
        assert(pre_v.take(m as int) =~= pre_v);
    }
    if pfx.as_str().unicode_len() > 0 {
        let ghost pfx0 = pfx@;
        pfx.append(",");
        proof {
            reveal_strlit(",");
            assert(pfx@ =~= pfx0 + seq![',']);
        }
    }
    let ghost pfx_v = pfx@;
    proof {
        assert(pfx_v == prefix_str(pre_v));
    }
    let n = registry.len();
    let mut out: Vec<String> = Vec::new();
    let mut i: usize = 0;
    proof {
        assert(registry@.take(0) =~= Seq::<(String, Standard)>::empty());
        assert(out.deep_view() =~= Seq::<Seq<char>>::empty());
    }
    while i < n
        invariant
            n == registry.len(),
            i <= n,
            pfx@ == pfx_v,
            pre.deep_view() == pre_v,
            search@ == parts_v.last(),
            out.deep_view() == completions(
                registry@.take(i as int),
                pre_v,
                pfx_v,
                parts_v.last(),
            ),
        decreases n - i,
    {
        proof {
            assert(registry@.take(i as int + 1).drop_last() =~= registry@.take(i as int));
            assert(registry@.take(i as int + 1).last() == registry@[i as int]);
        }
        let entry = &registry[i];
        if !ids_contain(&pre, &entry.0) && is_subsequence(&search, &entry.0) {
            let mut item = pfx.clone();
            item.append(entry.0.as_str());
            out.push(item);
            proof {
                assert(out.deep_view() =~= completions(
                    registry@.take(i as int),
                    pre_v,
                    pfx_v,
                    parts_v.last(),
                ).push(pfx_v + registry@[i as int].0@));
            }
        }
        i = i + 1;
    }
    proof {
        assert(registry@.take(n as int) =~= registry@);
    }
    out
}

} // verus!
