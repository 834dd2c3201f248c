//! What holds of the targets on which a connection is punched: each address once, no more than the
//! limit, local ones first, and the rest spread evenly.

use vstd::prelude::*;

use crate::protocol::relay::{NATAnalysis, PeerAddressInfo};
use crate::punch::targets::{
    allowed, band, collected, has_addr, in_band, inside, lan, lan_first, lemma_all_pass,
    lemma_lan_of_lan_first, lemma_partition, limited, outside, picked, private_v4,
    target_for, targets_of, thinned, wan, with_target, Endpoint, PeerInfo, Target,
};
use crate::rounding::{
    law_picks_are_distinct, law_picks_leave_no_gap, law_positions_are_nearest, rounded_product,
    spread_position,
};

verus! {

/// No two targets have the same address.
pub open spec fn distinct(targets: Seq<Target>) -> bool {
    forall|i: int, j: int|
        0 <= i < j < targets.len() ==> (#[trigger] targets[i]).addr != (
        #[trigger] targets[j]).addr
}

/// Every target is a member of a list.
pub open spec fn among(targets: Seq<Target>, source: Seq<Target>) -> bool {
    forall|i: int| 0 <= i < targets.len() ==> source.contains(#[trigger] targets[i])
}

proof fn lemma_with_target(targets: Seq<Target>, t: Target)
    requires
        distinct(targets),
    ensures
        distinct(with_target(targets, t)),
        with_target(targets, t).len() <= targets.len() + 1,
        targets.is_prefix_of(with_target(targets, t)),
        has_addr(with_target(targets, t), t.addr),
{
    if !has_addr(targets, t.addr) {
        let more = targets.push(t);
        assert(more[targets.len() as int].addr == t.addr);
        assert(targets =~= more.subrange(0, targets.len() as int));
    } else {
        assert(targets =~= targets.subrange(0, targets.len() as int));
    }
}

proof fn lemma_picked(targets: Seq<Target>, source: Seq<Target>, n: nat, k: nat)
    requires
        distinct(targets),
        source.len() > 0,
    ensures
        distinct(picked(targets, source, n, k)),
        picked(targets, source, n, k).len() <= targets.len() + k,
        targets.is_prefix_of(picked(targets, source, n, k)),
        forall|i: int|
            targets.len() <= i < picked(targets, source, n, k).len() ==> source.contains(
                #[trigger] picked(targets, source, n, k)[i],
            ),
    decreases k,
{
    if k > 0 {
        let before = picked(targets, source, n, (k - 1) as nat);
        let position = spread_position((k - 1) as nat, source.len(), n) as int;
        let t = source[position];
        lemma_picked(targets, source, n, (k - 1) as nat);
        lemma_with_target(before, t);
        assert(0 <= position < source.len());
        assert(source.contains(t));
        let after = with_target(before, t);
        assert forall|i: int| targets.len() <= i < after.len() implies source.contains(
            #[trigger] after[i],
        ) by {
            if i < before.len() {
                assert(after[i] == before[i]);
            }
        }
        assert(targets =~= after.subrange(0, targets.len() as int)) by {
            assert(targets =~= before.subrange(0, targets.len() as int));
        }
    } else {
        assert(targets =~= targets.subrange(0, targets.len() as int));
    }
}

proof fn lemma_thinned(targets: Seq<Target>, source: Seq<Target>, n: nat)
    requires
        distinct(targets),
    ensures
        distinct(thinned(targets, source, n)),
        thinned(targets, source, n).len() <= targets.len() + n,
        targets.is_prefix_of(thinned(targets, source, n)),
        forall|i: int|
            targets.len() <= i < thinned(targets, source, n).len() ==> source.contains(
                #[trigger] thinned(targets, source, n)[i],
            ),
{
    if n == 0 || source.len() == 0 {
        assert(targets =~= targets.subrange(0, targets.len() as int));
    } else {
        lemma_picked(targets, source, n, n);
    }
}

proof fn lemma_filter_members(s: Seq<Target>, f: spec_fn(Target) -> bool)
    ensures
        among(s.filter(f), s),
        distinct(s) ==> distinct(s.filter(f)),
        forall|i: int|
            0 <= i < s.len() && f(s[i]) ==> s.filter(f).contains(#[trigger] s[i]),
    decreases s.len(),
{
    reveal(Seq::filter);
    if s.len() > 0 {
        let front = s.drop_last();
        let kept = front.filter(f);
        let all = s.filter(f);
        lemma_filter_members(front, f);
        assert forall|i: int| 0 <= i < all.len() implies s.contains(#[trigger] all[i]) by {
            if i < kept.len() {
                assert(all[i] == kept[i]);
                assert(front.contains(kept[i]));
                let k = choose|k: int| 0 <= k < front.len() && front[k] == kept[i];
                assert(s[k] == kept[i]);
            } else {
                assert(s[s.len() - 1] == all[i]);
            }
        }
        assert forall|i: int| 0 <= i < s.len() && f(s[i]) implies all.contains(
            #[trigger] s[i],
        ) by {
            if i < front.len() {
                assert(front[i] == s[i]);
                assert(kept.contains(front[i]));
                let k = choose|k: int| 0 <= k < kept.len() && kept[k] == s[i];
                assert(all[k] == s[i]);
            } else {
                assert(all[kept.len() as int] == s[i]);
            }
        }
        if distinct(s) {
            assert(distinct(front)) by {
                assert forall|i: int, j: int| 0 <= i < j < front.len() implies (
                #[trigger] front[i]).addr != (#[trigger] front[j]).addr by {
                    assert(s[i].addr != s[j].addr);
                }
            }
            assert forall|i: int, j: int| 0 <= i < j < all.len() implies (
            #[trigger] all[i]).addr != (#[trigger] all[j]).addr by {
                if j < kept.len() {
                    assert(kept[i].addr != kept[j].addr);
                } else {
                    assert(front.contains(kept[i]));
                    let k = choose|k: int| 0 <= k < front.len() && front[k] == kept[i];
                    assert(s[k].addr != s[s.len() - 1].addr);
                }
            }
        }
    }
}

proof fn lemma_collected(
    infos: Seq<PeerAddressInfo>,
    parsed: Seq<Option<Endpoint>>,
    same_network: bool,
)
    requires
        parsed.len() >= infos.len(),
    ensures
        distinct(collected(infos, parsed, same_network)),
        forall|k: int|
            0 <= k < infos.len() ==> (#[trigger] parsed[k] matches Some(addr) ==> has_addr(
                collected(infos, parsed, same_network),
                addr,
            )),
        forall|i: int|
            0 <= i < collected(infos, parsed, same_network).len() ==> parsed.contains(
                Some((#[trigger] collected(infos, parsed, same_network)[i]).addr),
            ),
    decreases infos.len(),
{
    if infos.len() > 0 {
        let n = infos.len() - 1;
        let before = collected(infos.drop_last(), parsed, same_network);
        let after = collected(infos, parsed, same_network);
        lemma_collected(infos.drop_last(), parsed, same_network);
        if let Some(addr) = parsed[n] {
            let t = target_for(infos.last(), addr, same_network);
            lemma_with_target(before, t);
            assert(parsed.contains(Some(addr)));
            assert forall|k: int| 0 <= k < infos.len() implies (#[trigger] parsed[k] matches Some(
                a,
            ) ==> has_addr(after, a)) by {
                if k < n {
                    if let Some(a) = parsed[k] {
                        assert(has_addr(before, a));
                        let i = choose|i: int|
                            0 <= i < before.len() && #[trigger] before[i].addr == a;
                        assert(after[i] == before[i]);
                    }
                }
            }
            assert forall|i: int| 0 <= i < after.len() implies parsed.contains(
                Some((#[trigger] after[i]).addr),
            ) by {
                if i < before.len() {
                    assert(after[i] == before[i]);
                }
            }
        }
    }
}

proof fn lemma_lan_first(s: Seq<Target>)
    requires
        distinct(s),
    ensures
        distinct(lan_first(s)),
        lan_first(s).len() == s.len(),
        among(lan_first(s), s),
        among(s, lan_first(s)),
        forall|i: int|
            0 <= i < s.len() ==> ((#[trigger] lan_first(s)[i]).is_lan <==> i < s.filter(
                lan(),
            ).len()),
{
    let (a, b) = (s.filter(lan()), s.filter(wan()));
    let all = lan_first(s);
    lemma_filter_members(s, lan());
    lemma_filter_members(s, wan());
    lemma_partition(s, lan(), wan());
    lemma_all_pass(s, lan());
    lemma_all_pass(s, wan());
    assert forall|i: int| 0 <= i < all.len() implies s.contains(#[trigger] all[i]) && (
    all[i].is_lan <==> i < a.len()) by {
        if i < a.len() {
            assert(all[i] == a[i]);
            assert(lan()(a[i]));
        } else {
            assert(all[i] == b[i - a.len()]);
            assert(wan()(b[i - a.len()]));
        }
    }
    assert forall|i: int| 0 <= i < s.len() implies all.contains(#[trigger] s[i]) by {
        if s[i].is_lan {
            assert(lan()(s[i]));
            assert(a.contains(s[i]));
            let k = choose|k: int| 0 <= k < a.len() && a[k] == s[i];
            assert(all[k] == s[i]);
        } else {
            assert(wan()(s[i]));
            assert(b.contains(s[i]));
            let k = choose|k: int| 0 <= k < b.len() && b[k] == s[i];
            assert(all[a.len() + k] == s[i]);
        }
    }
    assert forall|i: int, j: int| 0 <= i < j < all.len() implies (#[trigger] all[i]).addr != (
    #[trigger] all[j]).addr by {
        if j < a.len() {
            assert(a[i].addr != a[j].addr);
        } else if i >= a.len() {
            assert(b[i - a.len()].addr != b[j - a.len()].addr);
        } else {
            assert(s.contains(all[i]) && s.contains(all[j]));
            let x = choose|x: int| 0 <= x < s.len() && s[x] == all[i];
            let y = choose|y: int| 0 <= y < s.len() && s[y] == all[j];
            if x < y {
                assert(s[x].addr != s[y].addr);
            } else if y < x {
                assert(s[y].addr != s[x].addr);
            }
        }
    }
}

proof fn lemma_limited(targets: Seq<Target>, max: nat, band: (u16, u16))
    requires
        distinct(targets),
        max > 0,
        forall|i: int|
            0 <= i < targets.len() ==> ((#[trigger] targets[i]).is_lan <==> i < targets.filter(
                lan(),
            ).len()),
    ensures
        distinct(limited(targets, max, band)),
        limited(targets, max, band).len() <= max,
        among(limited(targets, max, band), targets),
        targets.len() > max ==> ({
            let locals = targets.filter(lan()).len();
            let fixed = if locals < max {
                locals + 1
            } else {
                max
            };
            let out = limited(targets, max, band);
            &&& targets.take(fixed as int).is_prefix_of(out)
            &&& forall|i: int| fixed <= i < out.len() ==> !(#[trigger] out[i]).is_lan
        }),
{
    if targets.len() > max {
        let locals = targets.filter(lan()).len();
        lemma_partition(targets, lan(), wan());
        let fixed = if locals < max {
            locals + 1
        } else {
            max
        };
        let kept = targets.take(fixed as int);
        let rest = targets.skip(fixed as int);
        let inner = rest.filter(inside(band));
        let outer = rest.filter(outside(band));
        let source = if inner.len() == 0 {
            rest
        } else {
            inner
        };
        let first = thinned(kept, source, (max - kept.len()) as nat);
        assert forall|i: int, j: int| 0 <= i < j < kept.len() implies (
        #[trigger] kept[i]).addr != (#[trigger] kept[j]).addr by {
            assert(targets[i].addr != targets[j].addr);
        }
        lemma_filter_members(rest, inside(band));
        lemma_filter_members(rest, outside(band));
        lemma_thinned(kept, source, (max - kept.len()) as nat);
        let out = limited(targets, max, band);
        if first.len() < max && outer.len() > 0 {
            lemma_thinned(first, outer, (max - first.len()) as nat);
            assert(kept =~= out.subrange(0, kept.len() as int)) by {
                assert(kept =~= first.subrange(0, kept.len() as int));
                assert(first =~= out.subrange(0, first.len() as int));
            }
        }
        assert forall|i: int| fixed <= i < out.len() implies rest.contains(#[trigger] out[i]) by {
            if i < first.len() {
                assert(out[i] == first[i]);
                assert(source.contains(first[i]));
                if inner.len() > 0 {
                    let k = choose|k: int| 0 <= k < inner.len() && inner[k] == first[i];
                    assert(rest.contains(inner[k]));
                }
            } else {
                assert(outer.contains(out[i]));
                let k = choose|k: int| 0 <= k < outer.len() && outer[k] == out[i];
                assert(rest.contains(outer[k]));
            }
        }
        assert forall|i: int| 0 <= i < out.len() implies targets.contains(#[trigger] out[i]) by {
            if i < fixed {
                assert(out[i] == kept[i]);
                assert(targets[i] == kept[i]);
            } else {
                assert(rest.contains(out[i]));
                let k = choose|k: int| 0 <= k < rest.len() && rest[k] == out[i];
                assert(targets[fixed + k] == out[i]);
            }
        }
        assert forall|i: int| fixed <= i < out.len() implies !(#[trigger] out[i]).is_lan by {
            assert(rest.contains(out[i]));
            let k = choose|k: int| 0 <= k < rest.len() && rest[k] == out[i];
            assert(targets[fixed + k] == out[i]);
        }
    } else {
        assert forall|i: int| 0 <= i < targets.len() implies targets.contains(
            #[trigger] targets[i],
        ) by {}
    }
}

/// Every target has an announced address.
pub open spec fn announced(targets: Seq<Target>, parsed: Seq<Option<Endpoint>>) -> bool {
    forall|i: int|
        0 <= i < targets.len() ==> parsed.contains(Some((#[trigger] targets[i]).addr))
}

proof fn lemma_announced(
    targets: Seq<Target>,
    source: Seq<Target>,
    parsed: Seq<Option<Endpoint>>,
)
    requires
        among(targets, source),
        announced(source, parsed),
    ensures
        announced(targets, parsed),
{
    assert forall|i: int| 0 <= i < targets.len() implies parsed.contains(
        Some((#[trigger] targets[i]).addr),
    ) by {
        assert(source.contains(targets[i]));
        let k = choose|k: int| 0 <= k < source.len() && source[k] == targets[i];
        assert(parsed.contains(Some(source[k].addr)));
    }
}

/// No address is punched twice, no more than the limit are punched, and only announced addresses
/// are.
pub proof fn law_targets_are_distinct_and_bounded(
    info: PeerInfo,
    parsed: Seq<Option<Endpoint>>,
    max_candidates: Option<usize>,
)
    requires
        parsed.len() == info.peer_addresses@.len(),
    ensures
        distinct(targets_of(info, parsed, max_candidates)),
        max_candidates matches Some(max) ==> targets_of(info, parsed, max_candidates).len() <= allowed(
            max,
        ),
        announced(targets_of(info, parsed, max_candidates), parsed),
{
    let found = collected(info.peer_addresses@, parsed, info.same_network);
    let all = targets_of(info, parsed, None);
    assert(announced(all, parsed)) by {
        lemma_collected(info.peer_addresses@, parsed, info.same_network);
        lemma_lan_first(found);
        lemma_announced(all, found, parsed);
    }
    lemma_sorted(info, parsed);
    if let Some(max) = max_candidates {
        let out = limited(all, allowed(max), band(info.peer_nat_analysis));
        lemma_limited(all, allowed(max), band(info.peer_nat_analysis));
        lemma_announced(out, all, parsed);
    }
}

/// Without a limit, or if the limit suffices, every announced address is punched.
pub proof fn law_all_targets_without_limit(
    info: PeerInfo,
    parsed: Seq<Option<Endpoint>>,
    max_candidates: Option<usize>,
    k: int,
    addr: Endpoint,
)
    requires
        parsed.len() == info.peer_addresses@.len(),
        max_candidates matches Some(max) ==> targets_of(info, parsed, None).len() <= allowed(max),
        0 <= k < parsed.len(),
        parsed[k] == Some(addr),
    ensures
        has_addr(targets_of(info, parsed, max_candidates), addr),
{
    let found = collected(info.peer_addresses@, parsed, info.same_network);
    lemma_collected(info.peer_addresses@, parsed, info.same_network);
    lemma_lan_first(found);
    let i = choose|i: int| 0 <= i < found.len() && #[trigger] found[i].addr == addr;
    assert(lan_first(found).contains(found[i]));
    let j = choose|j: int| 0 <= j < lan_first(found).len() && lan_first(found)[j] == found[i];
    assert(targets_of(info, parsed, max_candidates)[j].addr == addr);
}

proof fn lemma_limited_order(targets: Seq<Target>, max: nat, band: (u16, u16), i: int, j: int)
    requires
        distinct(targets),
        max > 0,
        forall|k: int|
            0 <= k < targets.len() ==> ((#[trigger] targets[k]).is_lan <==> k < targets.filter(
                lan(),
            ).len()),
        0 <= i < j < limited(targets, max, band).len(),
        limited(targets, max, band)[j].is_lan,
    ensures
        limited(targets, max, band)[i].is_lan,
{
    let out = limited(targets, max, band);
    lemma_limited(targets, max, band);
    if targets.len() > max {
        let locals = targets.filter(lan()).len();
        let fixed = if locals < max {
            locals + 1
        } else {
            max
        };
        let head = targets.take(fixed as int);
        assert(j < fixed);
        assert(out[j] == head[j] && out[i] == head[i]);
        assert(targets[j] == head[j] && targets[i] == head[i]);
    } else {
        assert(out[j] == targets[j] && out[i] == targets[i]);
    }
}

proof fn lemma_sorted(info: PeerInfo, parsed: Seq<Option<Endpoint>>)
    requires
        parsed.len() == info.peer_addresses@.len(),
    ensures
        distinct(targets_of(info, parsed, None)),
        forall|k: int|
            0 <= k < targets_of(info, parsed, None).len() ==> ((#[trigger] targets_of(
                info,
                parsed,
                None,
            )[k]).is_lan <==> k < targets_of(info, parsed, None).filter(lan()).len()),
{
    let found = collected(info.peer_addresses@, parsed, info.same_network);
    lemma_collected(info.peer_addresses@, parsed, info.same_network);
    lemma_lan_first(found);
    lemma_lan_of_lan_first(found);
}

/// Local targets come before all others.
pub proof fn law_local_targets_come_first(
    info: PeerInfo,
    parsed: Seq<Option<Endpoint>>,
    max_candidates: Option<usize>,
    i: int,
    j: int,
)
    requires
        parsed.len() == info.peer_addresses@.len(),
        0 <= i < j < targets_of(info, parsed, max_candidates).len(),
        targets_of(info, parsed, max_candidates)[j].is_lan,
    ensures
        targets_of(info, parsed, max_candidates)[i].is_lan,
{
    let all = targets_of(info, parsed, None);
    lemma_sorted(info, parsed);
    match max_candidates {
        None => {
            assert(all[j].is_lan && all[i].is_lan);
        },
        Some(max) => {
            lemma_limited_order(all, allowed(max), band(info.peer_nat_analysis), i, j);
        },
    }
}

/// As long as a limit leaves room for one more target, it drops none of the local targets, nor the
/// first of the others.
pub proof fn law_limit_keeps_local_targets(
    info: PeerInfo,
    parsed: Seq<Option<Endpoint>>,
    max: usize,
)
    requires
        parsed.len() == info.peer_addresses@.len(),
        targets_of(info, parsed, None).filter(lan()).len() < max,
        targets_of(info, parsed, None).filter(lan()).len() < targets_of(info, parsed, None).len(),
    ensures
        ({
            let all = targets_of(info, parsed, None);
            let locals = all.filter(lan()).len();
            all.take(locals as int + 1).is_prefix_of(targets_of(info, parsed, Some(max)))
        }),
{
    let all = targets_of(info, parsed, None);
    lemma_sorted(info, parsed);
    lemma_limited(all, max as nat, band(info.peer_nat_analysis));
    if all.len() <= max {
        let head = all.take(all.filter(lan()).len() as int + 1);
        assert(head =~= all.subrange(0, head.len() as int));
    }
}

/// No target of one list has the address of a target of the other.
pub open spec fn apart(a: Seq<Target>, b: Seq<Target>) -> bool {
    forall|i: int, j: int|
        0 <= i < a.len() && 0 <= j < b.len() ==> (#[trigger] a[i]).addr != (#[trigger] b[j]).addr
}

/// Picks from a list that is long enough are all new.
proof fn lemma_picked_few(targets: Seq<Target>, source: Seq<Target>, n: nat, k: nat)
    requires
        apart(targets, source),
        distinct(source),
        k <= n <= source.len(),
        source.len() < 0x8_0000_0000_0000,
    ensures
        picked(targets, source, n, k).len() == targets.len() + k,
        forall|m: int|
            0 <= m < k ==> (#[trigger] picked(targets, source, n, k)[targets.len() + m])
                == source[spread_position(m as nat, source.len(), n) as int],
        targets.is_prefix_of(picked(targets, source, n, k)),
    decreases k,
{
    if k > 0 {
        let before = picked(targets, source, n, (k - 1) as nat);
        let at = spread_position((k - 1) as nat, source.len(), n) as int;
        let t = source[at];
        lemma_picked_few(targets, source, n, (k - 1) as nat);
        assert(!has_addr(before, t.addr)) by {
            if has_addr(before, t.addr) {
                let i = choose|i: int| 0 <= i < before.len() && #[trigger] before[i].addr == t.addr;
                if i < targets.len() {
                    assert(before[i] == targets[i]);
                    assert(targets[i].addr != source[at].addr);
                } else {
                    let m = i - targets.len();
                    assert(before[targets.len() + m] == source[spread_position(
                        m as nat,
                        source.len(),
                        n,
                    ) as int]);
                    law_picks_are_distinct(m as nat, (k - 1) as nat, source.len(), n);
                    let other = spread_position(m as nat, source.len(), n) as int;
                    assert(source[other].addr != source[at].addr);
                }
            }
        }
        let after = before.push(t);
        assert(picked(targets, source, n, k) == after);
        assert forall|m: int| 0 <= m < k implies (#[trigger] after[targets.len() + m])
            == source[spread_position(m as nat, source.len(), n) as int] by {
            if m < k - 1 {
                assert(after[targets.len() + m] == before[targets.len() + m]);
            }
        }
        assert(targets =~= after.subrange(0, targets.len() as int)) by {
            assert(targets =~= before.subrange(0, targets.len() as int));
        }
    } else {
        assert(targets =~= targets.subrange(0, targets.len() as int));
    }
}

/// As many picks as a list has members, or more, take the whole list.
proof fn lemma_picked_many(targets: Seq<Target>, source: Seq<Target>, n: nat, k: nat)
    requires
        apart(targets, source),
        distinct(source),
        0 < source.len() <= n,
        0 < k <= n,
        n < 0x8_0000_0000_0000,
        source.len() <= 0x1000_0000,
    ensures
        picked(targets, source, n, k) == targets + source.take(
            spread_position((k - 1) as nat, source.len(), n) as int + 1,
        ),
    decreases k,
{
    let at = spread_position((k - 1) as nat, source.len(), n) as int;
    let t = source[at];
    let before = picked(targets, source, n, (k - 1) as nat);
    law_picks_leave_no_gap((k - 1) as nat, source.len(), n);
    if k == 1 {
        assert(!has_addr(targets, t.addr));
        assert(picked(targets, source, n, 1) == targets.push(t)) by {
            reveal_with_fuel(picked, 2);
        }
        assert(targets.push(t) =~= targets + source.take(1));
    } else {
        let last = spread_position((k - 2) as nat, source.len(), n) as int;
        lemma_picked_many(targets, source, n, (k - 1) as nat);
        law_picks_leave_no_gap((k - 2) as nat, source.len(), n);
        assert(before == targets + source.take(last + 1));
        if at == last {
            assert(before[targets.len() + at] == t);
            assert(has_addr(before, t.addr));
        } else {
            assert(!has_addr(before, t.addr)) by {
                if has_addr(before, t.addr) {
                    let i = choose|i: int|
                        0 <= i < before.len() && #[trigger] before[i].addr == t.addr;
                    if i < targets.len() {
                        assert(before[i] == targets[i]);
                    } else {
                        assert(before[i] == source[i - targets.len()]);
                    }
                }
            }
            assert(before.push(t) =~= targets + source.take(at + 1));
        }
    }
}

/// As many picks as a list has members go through it one by one.
proof fn lemma_pick_each(i: nat, len: nat)
    requires
        i < len < 0x8_0000_0000_0000,
    ensures
        spread_position(i, len, len) >= i,
    decreases i,
{
    if i > 0 {
        lemma_pick_each((i - 1) as nat, len);
        law_picks_are_distinct((i - 1) as nat, i, len, len);
    }
}

proof fn lemma_pick_no_further(i: nat, len: nat)
    requires
        i < len < 0x8_0000_0000_0000,
    ensures
        spread_position(i, len, len) <= i,
    decreases len - i,
{
    if i + 1 < len {
        lemma_pick_no_further(i + 1, len);
        law_picks_are_distinct(i, i + 1, len, len);
    }
}

proof fn lemma_thinned_len(targets: Seq<Target>, source: Seq<Target>, n: nat)
    requires
        apart(targets, source),
        distinct(source),
        source.len() < 0x8_0000_0000_0000,
        n < 0x8_0000_0000_0000,
        n <= source.len() || source.len() <= 0x1000_0000,
    ensures
        n <= source.len() ==> thinned(targets, source, n).len() == targets.len() + n,
        n >= source.len() ==> thinned(targets, source, n) == targets + source,
{
    let out = thinned(targets, source, n);
    if n == 0 || source.len() == 0 {
        assert(source.len() == 0 ==> targets + source =~= targets);
    } else if n <= source.len() {
        lemma_picked_few(targets, source, n, n);
        if n == source.len() {
            assert forall|i: int| 0 <= i < out.len() implies #[trigger] out[i] == (targets
                + source)[i] by {
                if i < targets.len() {
                    assert(out[i] == targets[i]);
                } else {
                    let m = i - targets.len();
                    lemma_pick_each(m as nat, n);
                    lemma_pick_no_further(m as nat, n);
                    assert(out[targets.len() + m] == source[m]);
                }
            }
            assert(out =~= targets + source);
        }
    } else {
        lemma_picked_many(targets, source, n, n);
        law_picks_leave_no_gap(0, source.len(), n);
        assert(source.take(source.len() as int) =~= source);
    }
}

proof fn lemma_filters_apart(s: Seq<Target>, f: spec_fn(Target) -> bool, g: spec_fn(Target) -> bool)
    requires
        distinct(s),
        forall|t: Target| #[trigger] f(t) != g(t),
    ensures
        apart(s.filter(f), s.filter(g)),
{
    let (a, b) = (s.filter(f), s.filter(g));
    lemma_filter_members(s, f);
    lemma_filter_members(s, g);
    lemma_all_pass(s, f);
    lemma_all_pass(s, g);
    assert forall|i: int, j: int| 0 <= i < a.len() && 0 <= j < b.len() implies (
    #[trigger] a[i]).addr != (#[trigger] b[j]).addr by {
        assert(s.contains(a[i]) && s.contains(b[j]));
        let x = choose|x: int| 0 <= x < s.len() && s[x] == a[i];
        let y = choose|y: int| 0 <= y < s.len() && s[y] == b[j];
        assert(f(a[i]) && g(b[j]));
        assert(f(a[i]) != g(a[i]));
        if x < y {
            assert(s[x].addr != s[y].addr);
        } else if y < x {
            assert(s[y].addr != s[x].addr);
        }
    }
}

/// How many targets a limit keeps before it thins out the others: the local ones and one more.
pub open spec fn kept_by_limit(targets: Seq<Target>, max: nat) -> nat {
    if targets.filter(lan()).len() + 1 <= max {
        targets.filter(lan()).len() + 1
    } else {
        max
    }
}

/// Whether all of the ports in which the NAT of the peer has been seen to allocate are taken where a
/// limit leaves room for more: this can only fail if they are more than 2 to the power 28.
pub open spec fn band_is_filled(targets: Seq<Target>, max: nat, band: (u16, u16)) -> bool {
    let kept = kept_by_limit(targets, max);
    let inner = targets.skip(kept as int).filter(inside(band)).len();
    inner <= 0x1000_0000 || inner >= max - kept
}

/// What a limit that is exceeded keeps: the fixed targets, then those in the band or as many of them
/// as there is room for, and then others.
pub open spec fn band_comes_first(
    targets: Seq<Target>,
    out: Seq<Target>,
    max: nat,
    band: (u16, u16),
) -> bool {
    let fixed = kept_by_limit(targets, max);
    let room = max - fixed;
    let inner = targets.skip(fixed as int).filter(inside(band));
    &&& targets.take(fixed as int).is_prefix_of(out)
    &&& inner.len() <= room ==> (targets.take(fixed as int) + inner).is_prefix_of(out)
    &&& forall|i: int|
        fixed <= i < out.len() ==> (in_band(#[trigger] out[i], band) <==> i < fixed + inner.len())
    &&& forall|i: int|
        fixed <= i < out.len() && i < fixed + inner.len() ==> inner.contains(#[trigger] out[i])
}

proof fn lemma_limited_band(targets: Seq<Target>, max: nat, band: (u16, u16))
    requires
        distinct(targets),
        0 < max < targets.len() < 0x8_0000_0000_0000,
        band_is_filled(targets, max, band),
    ensures
        limited(targets, max, band).len() == max,
        band_comes_first(targets, limited(targets, max, band), max, band),
{
    lemma_partition(targets, lan(), wan());
    let fixed = kept_by_limit(targets, max);
    let kept = targets.take(fixed as int);
    let rest = targets.skip(fixed as int);
    let inner = rest.filter(inside(band));
    let outer = rest.filter(outside(band));
    let room = (max - fixed) as nat;
    let out = limited(targets, max, band);
    lemma_partition(rest, inside(band), outside(band));
    assert(distinct(kept)) by {
        assert forall|i: int, j: int| 0 <= i < j < kept.len() implies (
        #[trigger] kept[i]).addr != (#[trigger] kept[j]).addr by {
            assert(targets[i].addr != targets[j].addr);
        }
    }
    assert(distinct(rest)) by {
        assert forall|i: int, j: int| 0 <= i < j < rest.len() implies (
        #[trigger] rest[i]).addr != (#[trigger] rest[j]).addr by {
            assert(targets[fixed + i].addr != targets[fixed + j].addr);
        }
    }
    assert(apart(kept, rest)) by {
        assert forall|i: int, j: int| 0 <= i < kept.len() && 0 <= j < rest.len() implies (
        #[trigger] kept[i]).addr != (#[trigger] rest[j]).addr by {
            assert(targets[i].addr != targets[fixed + j].addr);
        }
    }
    lemma_filter_members(rest, inside(band));
    lemma_filter_members(rest, outside(band));
    lemma_all_pass(rest, inside(band));
    lemma_all_pass(rest, outside(band));
    lemma_filters_apart(rest, inside(band), outside(band));
    lemma_apart_part(kept, rest, inner);
    lemma_apart_part(kept, rest, outer);
    if inner.len() == 0 {
        lemma_thinned(kept, rest, room);
        lemma_thinned_len(kept, rest, room);
        assert(out == thinned(kept, rest, room));
        assert(kept + inner =~= kept);
        assert forall|i: int| fixed <= i < out.len() implies !in_band(#[trigger] out[i], band) by {
            assert(rest.contains(out[i]));
            let k = choose|k: int| 0 <= k < rest.len() && rest[k] == out[i];
            if inside(band)(rest[k]) {
                assert(inner.contains(rest[k]));
            }
        }
    } else {
        let first = thinned(kept, inner, room);
        lemma_thinned(kept, inner, room);
        lemma_thinned_len(kept, inner, room);
        assert forall|i: int| fixed <= i < first.len() implies inner.contains(
            #[trigger] first[i],
        ) && in_band(first[i], band) by {
            let k = choose|k: int| 0 <= k < inner.len() && inner[k] == first[i];
            assert(inside(band)(inner[k]));
        }
        if room > inner.len() {
            let left = (max - first.len()) as nat;
            assert(first == kept + inner);
            assert(distinct(first));
            assert(apart(first, outer)) by {
                assert forall|i: int, j: int| 0 <= i < first.len() && 0 <= j < outer.len() implies (
                #[trigger] first[i]).addr != (#[trigger] outer[j]).addr by {
                    if i < kept.len() {
                        assert(first[i] == kept[i]);
                        assert(kept[i].addr != outer[j].addr);
                    } else {
                        assert(first[i] == inner[i - kept.len()]);
                        assert(inner[i - kept.len()].addr != outer[j].addr);
                    }
                }
            }
            lemma_thinned(first, outer, left);
            lemma_thinned_len(first, outer, left);
            assert(out == thinned(first, outer, left));
            assert(kept =~= out.subrange(0, kept.len() as int)) by {
                assert(kept =~= first.subrange(0, kept.len() as int));
                assert(first =~= out.subrange(0, first.len() as int));
            }
            assert forall|i: int| fixed <= i < out.len() implies (in_band(#[trigger] out[i], band)
                <==> i < fixed + inner.len()) && (i < fixed + inner.len() ==> inner.contains(
                out[i],
            )) by {
                if i < first.len() {
                    assert(out[i] == first[i]);
                } else {
                    assert(outer.contains(out[i]));
                    let k = choose|k: int| 0 <= k < outer.len() && outer[k] == out[i];
                    assert(outside(band)(outer[k]));
                }
            }
        } else {
            assert(out == first);
            if room == inner.len() {
                assert(kept + inner =~= out.subrange(0, (kept + inner).len() as int));
            }
        }
    }
}

proof fn lemma_apart_part(a: Seq<Target>, b: Seq<Target>, part: Seq<Target>)
    requires
        apart(a, b),
        among(part, b),
    ensures
        apart(a, part),
{
    assert forall|i: int, j: int| 0 <= i < a.len() && 0 <= j < part.len() implies (
    #[trigger] a[i]).addr != (#[trigger] part[j]).addr by {
        assert(b.contains(part[j]));
        let k = choose|k: int| 0 <= k < b.len() && b[k] == part[j];
        assert(a[i].addr != b[k].addr);
    }
}

/// A limit is used up: if there are more targets than it allows, exactly as many are punched as it
/// allows. Left out are lists in which the ports that the NAT of the peer has been seen to allocate
/// make up more than 2 to the power 28 targets and yet fewer than there is room for: there the
/// rounding of the positions may pass over one of them.
pub proof fn law_limit_is_used_up(info: PeerInfo, parsed: Seq<Option<Endpoint>>, max: usize)
    requires
        parsed.len() == info.peer_addresses@.len(),
        allowed(max) < targets_of(info, parsed, None).len() < 0x8_0000_0000_0000,
        band_is_filled(
            targets_of(info, parsed, None),
            allowed(max),
            band(info.peer_nat_analysis),
        ),
    ensures
        targets_of(info, parsed, Some(max)).len() == allowed(max),
{
    lemma_sorted(info, parsed);
    lemma_limited_band(
        targets_of(info, parsed, None),
        allowed(max),
        band(info.peer_nat_analysis),
    );
}

/// Behind the local targets and the first of the others, a limit keeps targets with ports in which
/// the NAT of the peer has been seen to allocate, as many of them as there is room for, and it takes
/// others only behind all of these. Left out are the lists that are left out of
/// `law_limit_is_used_up`.
pub proof fn law_limit_prefers_the_band(info: PeerInfo, parsed: Seq<Option<Endpoint>>, max: usize)
    requires
        parsed.len() == info.peer_addresses@.len(),
        allowed(max) < targets_of(info, parsed, None).len() < 0x8_0000_0000_0000,
        band_is_filled(
            targets_of(info, parsed, None),
            allowed(max),
            band(info.peer_nat_analysis),
        ),
    ensures
        ({
            let all = targets_of(info, parsed, None);
            let out = targets_of(info, parsed, Some(max));
            let ports = band(info.peer_nat_analysis);
            let fixed = kept_by_limit(all, allowed(max));
            let room = allowed(max) - fixed;
            let inner = all.skip(fixed as int).filter(inside(ports));
            &&& band_comes_first(all, out, allowed(max), ports)
            &&& out.skip(fixed as int).filter(inside(ports)).len() == if inner.len() <= room {
                inner.len() as int
            } else {
                room
            }
            &&& inner.len() <= room ==> among(inner, out)
        }),
{
    let all = targets_of(info, parsed, None);
    let out = targets_of(info, parsed, Some(max));
    let ports = band(info.peer_nat_analysis);
    let fixed = kept_by_limit(all, allowed(max));
    let inner = all.skip(fixed as int).filter(inside(ports));
    let tail = out.skip(fixed as int);
    lemma_sorted(info, parsed);
    lemma_limited_band(all, allowed(max), ports);
    let n = if inner.len() <= tail.len() {
        inner.len()
    } else {
        tail.len()
    };
    assert forall|i: int| 0 <= i < tail.len() implies (inside(ports)(#[trigger] tail[i]) <==> i
        < n) by {
        assert(tail[i] == out[fixed + i]);
    }
    lemma_filter_front(tail, inside(ports), n);
    if inner.len() <= allowed(max) - fixed {
        let head = all.take(fixed as int) + inner;
        assert forall|i: int| 0 <= i < inner.len() implies out.contains(#[trigger] inner[i]) by {
            assert(head[fixed + i] == inner[i]);
            assert(out[fixed + i] == head[fixed + i]);
        }
    }
}

/// A target counts as local exactly if it is announced as local, or if both peers are behind the same
/// public address and it is an IPv4 address of a private network: one that begins with 10, with 172
/// and a number from 16 to 31, or with 192 and 168.
pub proof fn law_local_is_announced_or_private(
    info: PeerAddressInfo,
    addr: Endpoint,
    same_network: bool,
)
    ensures
        target_for(info, addr, same_network).addr == addr,
        info.addr_type@ == "local"@ ==> target_for(info, addr, same_network).is_lan,
        info.addr_type@ != "local"@ && !same_network ==> !target_for(
            info,
            addr,
            same_network,
        ).is_lan,
        info.addr_type@ != "local"@ && same_network ==> match addr {
            Endpoint::V4 { ip, .. } => {
                let (a, b) = (ip as int / 0x100_0000, (ip as int / 0x1_0000) % 256);
                target_for(info, addr, same_network).is_lan <==> (a == 10 || (a == 172 && 16 <= b
                    <= 31) || (a == 192 && b == 168))
            },
            Endpoint::V6 { .. } => !target_for(info, addr, same_network).is_lan,
        },
{
}

/// The targets stand in the order in which their addresses were announced first, and what counts is
/// that first announcement: wherever a later target is announced, an earlier one was announced before.
pub proof fn law_announced_order_is_kept(
    infos: Seq<PeerAddressInfo>,
    parsed: Seq<Option<Endpoint>>,
    same_network: bool,
)
    requires
        parsed.len() >= infos.len(),
    ensures
        ({
            let found = collected(infos, parsed, same_network);
            &&& forall|i: int, j: int, k: int|
                0 <= i < j < found.len() && 0 <= k < infos.len() && #[trigger] parsed[k] == Some(
                    (#[trigger] found[j]).addr,
                ) ==> announced_before(parsed, (#[trigger] found[i]).addr, k)
            &&& forall|i: int|
                0 <= i < found.len() ==> first_announcement(
                    infos,
                    parsed,
                    same_network,
                    #[trigger] found[i],
                )
        }),
    decreases infos.len(),
{
    if infos.len() > 0 {
        let n = infos.len() - 1;
        let before = collected(infos.drop_last(), parsed, same_network);
        let found = collected(infos, parsed, same_network);
        law_announced_order_is_kept(infos.drop_last(), parsed, same_network);
        lemma_collected(infos.drop_last(), parsed, same_network);
        assert forall|i: int| 0 <= i < found.len() implies first_announcement(
            infos,
            parsed,
            same_network,
            #[trigger] found[i],
        ) by {
            if i < before.len() {
                assert(found[i] == before[i]);
                let k = choose|k: int|
                    #![trigger parsed[k]]
                    0 <= k < infos.drop_last().len() && parsed[k] == Some(before[i].addr) && (
                    before[i].is_lan <==> infos.drop_last()[k].addr_type@ == "local"@ || (
                    same_network && private_v4(before[i].addr))) && forall|m: int|
                        0 <= m < k ==> parsed[m] != Some(before[i].addr);
                assert(infos.drop_last()[k] == infos[k]);
                assert(parsed[k] == Some(found[i].addr));
            } else {
                let addr = found[i].addr;
                assert(parsed[n] == Some(addr));
                assert forall|m: int| 0 <= m < n implies parsed[m] != Some(addr) by {
                    if parsed[m] == Some(addr) {
                        assert(has_addr(before, addr));
                    }
                }
                assert(infos[n] == infos.last());
            }
        }
        assert forall|i: int, j: int, k: int|
            0 <= i < j < found.len() && 0 <= k < infos.len() && #[trigger] parsed[k] == Some(
                (#[trigger] found[j]).addr,
            ) implies announced_before(parsed, (#[trigger] found[i]).addr, k) by {
            assert(found[i] == before[i]);
            assert(first_announcement(infos.drop_last(), parsed, same_network, before[i]));
            let first = choose|m: int|
                #![trigger parsed[m]]
                0 <= m < infos.drop_last().len() && parsed[m] == Some(before[i].addr) && (
                before[i].is_lan <==> infos.drop_last()[m].addr_type@ == "local"@ || (same_network
                    && private_v4(before[i].addr))) && forall|l: int|
                    0 <= l < m ==> parsed[l] != Some(before[i].addr);
            if j < before.len() {
                assert(found[j] == before[j]);
                if k < n {
                    assert(announced_before(parsed, before[i].addr, k));
                } else {
                    assert(parsed[first] == Some(found[i].addr));
                }
            } else {
                if k < n {
                    assert(has_addr(before, found[j].addr));
                }
                assert(parsed[first] == Some(found[i].addr));
            }
        }
    }
}

/// Whether an address is announced before a place.
pub open spec fn announced_before(parsed: Seq<Option<Endpoint>>, addr: Endpoint, k: int) -> bool {
    exists|m: int| 0 <= m < k && #[trigger] parsed[m] == Some(addr)
}

/// Whether a target is what its first announcement makes it.
pub open spec fn first_announcement(
    infos: Seq<PeerAddressInfo>,
    parsed: Seq<Option<Endpoint>>,
    same_network: bool,
    t: Target,
) -> bool {
    exists|k: int|
        #![trigger parsed[k]]
        0 <= k < infos.len() && parsed[k] == Some(t.addr) && (t.is_lan <==> infos[k].addr_type@
            == "local"@ || (same_network && private_v4(t.addr))) && forall|m: int|
            0 <= m < k ==> parsed[m] != Some(t.addr)
}

/// The local targets, and the others, stay in the order in which they were announced.
pub proof fn law_order_is_kept_within_kinds(
    info: PeerInfo,
    parsed: Seq<Option<Endpoint>>,
    i: int,
    j: int,
    k: int,
)
    requires
        parsed.len() == info.peer_addresses@.len(),
        0 <= i < j < targets_of(info, parsed, None).len(),
        targets_of(info, parsed, None)[i].is_lan == targets_of(info, parsed, None)[j].is_lan,
        0 <= k < parsed.len(),
        parsed[k] == Some(targets_of(info, parsed, None)[j].addr),
    ensures
        announced_before(parsed, targets_of(info, parsed, None)[i].addr, k),
{
    let found = collected(info.peer_addresses@, parsed, info.same_network);
    let all = targets_of(info, parsed, None);
    let (a, b) = (found.filter(lan()), found.filter(wan()));
    law_announced_order_is_kept(info.peer_addresses@, parsed, info.same_network);
    lemma_all_pass(found, lan());
    lemma_all_pass(found, wan());
    let (x, y) = if all[j].is_lan {
        if j >= a.len() {
            assert(wan()(b[j - a.len()]));
        }
        lemma_filter_order(found, lan(), i, j)
    } else {
        if i < a.len() {
            assert(lan()(a[i]));
        }
        lemma_filter_order(found, wan(), i - a.len(), j - a.len())
    };
    assert(found[x] == all[i] && found[y] == all[j]);
}

proof fn lemma_filter_order(s: Seq<Target>, f: spec_fn(Target) -> bool, i: int, j: int) -> (r: (
    int,
    int,
))
    requires
        0 <= i < j < s.filter(f).len(),
    ensures
        0 <= r.0 < r.1 < s.len(),
        s[r.0] == s.filter(f)[i],
        s[r.1] == s.filter(f)[j],
    decreases s.len(),
{
    reveal(Seq::filter);
    let front = s.drop_last();
    let kept = front.filter(f);
    if j < kept.len() {
        let r = lemma_filter_order(front, f, i, j);
        assert(front[r.0] == s[r.0] && front[r.1] == s[r.1]);
        r
    } else {
        lemma_filter_members(front, f);
        assert(front.contains(kept[i]));
        let x = choose|x: int| 0 <= x < front.len() && front[x] == kept[i];
        assert(s[x] == front[x]);
        (x, s.len() - 1)
    }
}

/// A target is among the ports in which the NAT of the peer has been seen to allocate exactly if its
/// port lies between the smallest and the largest one that was observed. Without an observation none
/// is.
pub proof fn law_band_is_what_was_observed(t: Target, analysis: Option<NATAnalysis>)
    ensures
        in_band(t, band(analysis)) <==> (analysis matches Some(a) && 0 < a.min_port
            && a.min_port <= t.addr.port_of() && t.addr.port_of() <= a.max_port),
        t.addr.port_of() == match t.addr {
            Endpoint::V4 { port, .. } => port,
            Endpoint::V6 { port, .. } => port,
        },
{
}

/// A limit does not cut a list off but thins it out: where the ports in which the NAT of the peer has
/// been seen to allocate offer as many targets as there is room for, the `m`-th one that is kept stands
/// where its even share of these targets lies, as near as a whole number can. Where they offer none,
/// the same holds of all targets.
pub proof fn law_limit_spreads_evenly(
    info: PeerInfo,
    parsed: Seq<Option<Endpoint>>,
    max: usize,
    m: nat,
) -> (at: int)
    requires
        parsed.len() == info.peer_addresses@.len(),
        allowed(max) < targets_of(info, parsed, None).len() < 0x8_0000_0000_0000,
        ({
            let all = targets_of(info, parsed, None);
            let fixed = kept_by_limit(all, allowed(max));
            let rest = all.skip(fixed as int);
            let inner = rest.filter(inside(band(info.peer_nat_analysis)));
            let source = if inner.len() > 0 {
                inner
            } else {
                rest
            };
            let room = allowed(max) - fixed;
            &&& m < room <= source.len()
            &&& m * source.len() < 0x8_0000_0000_0000
        }),
    ensures
        ({
            let all = targets_of(info, parsed, None);
            let fixed = kept_by_limit(all, allowed(max));
            let rest = all.skip(fixed as int);
            let inner = rest.filter(inside(band(info.peer_nat_analysis)));
            let source = if inner.len() > 0 {
                inner
            } else {
                rest
            };
            let room = allowed(max) - fixed;
            &&& 0 <= at < source.len()
            &&& targets_of(info, parsed, Some(max))[(fixed + m) as int] == source[at]
            &&& 2 * (m * source.len()) - room <= 2 * (room * at) <= 2 * (m * source.len()) + room
        }),
{
    let all = targets_of(info, parsed, None);
    let ports = band(info.peer_nat_analysis);
    let max = allowed(max);
    let fixed = kept_by_limit(all, max);
    let kept = all.take(fixed as int);
    let rest = all.skip(fixed as int);
    let inner = rest.filter(inside(ports));
    let source = if inner.len() > 0 {
        inner
    } else {
        rest
    };
    let room = (max - fixed) as nat;
    let len = source.len();
    lemma_sorted(info, parsed);
    lemma_partition(all, lan(), wan());
    lemma_partition(rest, inside(ports), outside(ports));
    lemma_filter_members(rest, inside(ports));
    assert(distinct(rest)) by {
        assert forall|i: int, j: int| 0 <= i < j < rest.len() implies (
        #[trigger] rest[i]).addr != (#[trigger] rest[j]).addr by {
            assert(all[fixed + i].addr != all[fixed + j].addr);
        }
    }
    assert(apart(kept, rest)) by {
        assert forall|i: int, j: int| 0 <= i < kept.len() && 0 <= j < rest.len() implies (
        #[trigger] kept[i]).addr != (#[trigger] rest[j]).addr by {
            assert(all[i].addr != all[fixed + j].addr);
        }
    }
    lemma_apart_part(kept, rest, inner);
    lemma_picked_few(kept, source, room, room);
    let out = limited(all, max, ports);
    assert(out == picked(kept, source, room, room));
    let at = spread_position(m, len, room) as int;
    assert(out[kept.len() + m as int] == source[at]);
    lemma_place_is_nearest(m, len, room);
    at
}

proof fn lemma_place_is_nearest(m: nat, len: nat, n: nat)
    requires
        m < n <= len < 0x8_0000_0000_0000,
        m * len < 0x8_0000_0000_0000,
    ensures
        0 <= spread_position(m, len, n) < len,
        2 * (m * len) - n <= 2 * (n * spread_position(m, len, n)) <= 2 * (m * len) + n,
{
    law_positions_are_nearest(m, len, n);
    let exact = rounded_product(m, len, n) as int;
    let (mm, ll, nn) = (m as int, len as int, n as int);
    if exact > ll - 1 {
        assert(nn * exact >= nn * ll) by (nonlinear_arith)
            requires
                exact >= ll,
                nn >= 0,
        ;
        assert(mm * ll <= nn * ll - ll) by (nonlinear_arith)
            requires
                mm <= nn - 1,
                ll >= 0,
        ;
        assert(false);
    }
}

/// Where the ports in which the NAT of the peer has been seen to allocate offer fewer targets than
/// there is room for, the room behind them is filled from the others, spread evenly over them.
pub proof fn law_rest_is_spread_evenly(
    info: PeerInfo,
    parsed: Seq<Option<Endpoint>>,
    max: usize,
    m: nat,
) -> (at: int)
    requires
        parsed.len() == info.peer_addresses@.len(),
        allowed(max) < targets_of(info, parsed, None).len() < 0x8_0000_0000_0000,
        ({
            let all = targets_of(info, parsed, None);
            let fixed = kept_by_limit(all, allowed(max));
            let rest = all.skip(fixed as int);
            let inner = rest.filter(inside(band(info.peer_nat_analysis)));
            let left = allowed(max) - fixed - inner.len();
            &&& 0 < inner.len() <= 0x1000_0000
            &&& m < left
            &&& m * (rest.len() - inner.len()) < 0x8_0000_0000_0000
        }),
    ensures
        ({
            let all = targets_of(info, parsed, None);
            let fixed = kept_by_limit(all, allowed(max));
            let rest = all.skip(fixed as int);
            let inner = rest.filter(inside(band(info.peer_nat_analysis)));
            let outer = rest.filter(outside(band(info.peer_nat_analysis)));
            let left = allowed(max) - fixed - inner.len();
            &&& 0 <= at < outer.len()
            &&& targets_of(info, parsed, Some(max))[(fixed + inner.len() + m) as int] == outer[at]
            &&& 2 * (m * outer.len()) - left <= 2 * (left * at) <= 2 * (m * outer.len()) + left
        }),
{
    let all = targets_of(info, parsed, None);
    let ports = band(info.peer_nat_analysis);
    let max = allowed(max);
    let fixed = kept_by_limit(all, max);
    let kept = all.take(fixed as int);
    let rest = all.skip(fixed as int);
    let inner = rest.filter(inside(ports));
    let outer = rest.filter(outside(ports));
    let first = kept + inner;
    let left = (max - fixed - inner.len()) as nat;
    lemma_sorted(info, parsed);
    lemma_partition(all, lan(), wan());
    lemma_partition(rest, inside(ports), outside(ports));
    lemma_filter_members(rest, inside(ports));
    lemma_filter_members(rest, outside(ports));
    assert(distinct(rest)) by {
        assert forall|i: int, j: int| 0 <= i < j < rest.len() implies (
        #[trigger] rest[i]).addr != (#[trigger] rest[j]).addr by {
            assert(all[fixed + i].addr != all[fixed + j].addr);
        }
    }
    assert(apart(kept, rest)) by {
        assert forall|i: int, j: int| 0 <= i < kept.len() && 0 <= j < rest.len() implies (
        #[trigger] kept[i]).addr != (#[trigger] rest[j]).addr by {
            assert(all[i].addr != all[fixed + j].addr);
        }
    }
    lemma_filters_apart(rest, inside(ports), outside(ports));
    lemma_apart_part(kept, rest, inner);
    lemma_apart_part(kept, rest, outer);
    lemma_thinned_len(kept, inner, (max - fixed) as nat);
    assert(apart(first, outer)) by {
        assert forall|i: int, j: int| 0 <= i < first.len() && 0 <= j < outer.len() implies (
        #[trigger] first[i]).addr != (#[trigger] outer[j]).addr by {
            if i < kept.len() {
                assert(first[i] == kept[i]);
            } else {
                assert(first[i] == inner[i - kept.len()]);
            }
        }
    }
    lemma_picked_few(first, outer, left, left);
    let out = limited(all, max, ports);
    assert(out == picked(first, outer, left, left));
    let at = spread_position(m, outer.len(), left) as int;
    assert(out[first.len() + m as int] == outer[at]);
    lemma_place_is_nearest(m, outer.len(), left);
    at
}

/// Where the local targets alone exceed a limit, the first ones of them are kept.
pub proof fn law_limit_among_local_targets(
    info: PeerInfo,
    parsed: Seq<Option<Endpoint>>,
    max: usize,
)
    requires
        parsed.len() == info.peer_addresses@.len(),
        targets_of(info, parsed, None).filter(lan()).len() >= allowed(max),
    ensures
        targets_of(info, parsed, Some(max)) == targets_of(info, parsed, None).take(
            allowed(max) as int,
        ),
        max >= 1 ==> allowed(max) == max,
        allowed(0) == 1,
{
    let all = targets_of(info, parsed, None);
    lemma_partition(all, lan(), wan());
    if all.len() <= allowed(max) {
        assert(all.take(allowed(max) as int) =~= all);
    }
}

/// If exactly the first members of a list pass a test, so many pass it.
proof fn lemma_filter_front(s: Seq<Target>, f: spec_fn(Target) -> bool, n: nat)
    requires
        n <= s.len(),
        forall|i: int| 0 <= i < s.len() ==> (f(#[trigger] s[i]) <==> i < n),
    ensures
        s.filter(f).len() == n,
    decreases s.len(),
{
    reveal(Seq::filter);
    if s.len() > 0 {
        let front = s.drop_last();
        assert forall|i: int| 0 <= i < front.len() implies (f(#[trigger] front[i]) <==> i < n) by {
            assert(front[i] == s[i]);
        }
        assert(f(s[s.len() - 1]) <==> s.len() - 1 < n);
        lemma_filter_front(
            front,
            f,
            if n < s.len() {
                n
            } else {
                front.len()
            },
        );
    }
}

} // verus!
