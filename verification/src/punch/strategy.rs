//! Simultaneous open: how many sockets are held on which targets, and which of the connections
//! that come about is kept.

use vstd::prelude::*;
use vstd::string::*;

use crate::punch::targets::Target;
use crate::text::{decimal, push_decimal};

verus! {

/// The switches of punching. Times are milliseconds.
#[derive(Debug, Clone, Copy, PartialEq, Eq, Structural)]
pub struct PunchOptions {
    /// Prefer local candidates when both peers are behind the same NAT.
    pub prefer_lan: bool,
    /// How many local ports are held at once per target.
    pub parallel_ports: usize,
    /// Upper bound on targets times ports.
    pub socket_budget: usize,
    /// How many of the candidates of the peer are punched; all where there is no number.
    pub max_candidates: Option<usize>,
    /// Pause after a refused attempt.
    pub retry_pause_ms: u64,
    /// Upper bound on the wait for a better candidate.
    pub grace_ms: u64,
    /// Derive the wait from how long the first candidate took.
    pub grace_adaptiv: bool,
    /// How long a target is served when targets are served in turn; 800 where there is no number.
    pub rotate_after_ms: Option<u64>,
}

impl Default for PunchOptions {
    fn default() -> (o: PunchOptions)
        ensures
            o == (PunchOptions {
                prefer_lan: true,
                parallel_ports: 16,
                socket_budget: 512,
                max_candidates: None,
                retry_pause_ms: 100,
                grace_ms: 300,
                grace_adaptiv: true,
                rotate_after_ms: None,
            }),
    {
        PunchOptions {
            prefer_lan: true,
            parallel_ports: 16,
            socket_budget: 512,
            max_candidates: None,
            retry_pause_ms: 100,
            grace_ms: 300,
            grace_adaptiv: true,
            rotate_after_ms: None,
        }
    }
}

impl PunchOptions {
    /// One local port, no preference for local candidates, a fixed wait: the reference for a
    /// comparison.
    pub fn legacy() -> (o: PunchOptions)
        ensures
            o == (PunchOptions {
                prefer_lan: false,
                parallel_ports: 1,
                socket_budget: 512,
                max_candidates: None,
                retry_pause_ms: 100,
                grace_ms: 300,
                grace_adaptiv: false,
                rotate_after_ms: None,
            }),
    {
        PunchOptions {
            prefer_lan: false,
            parallel_ports: 1,
            socket_budget: 512,
            max_candidates: None,
            retry_pause_ms: 100,
            grace_ms: 300,
            grace_adaptiv: false,
            rotate_after_ms: None,
        }
    }
}

pub open spec fn at_least(a: int, b: int) -> int {
    if a >= b {
        a
    } else {
        b
    }
}

pub open spec fn at_most(a: int, b: int) -> int {
    if a <= b {
        a
    } else {
        b
    }
}

/// How long to wait for a better candidate: as long as the first one took, but at least 50
/// milliseconds and at most the configured time, which counts where it is less than 50.
pub open spec fn grace_window(opts: PunchOptions, first_ms: int) -> int {
    if opts.grace_adaptiv {
        at_most(at_least(first_ms, at_most(50, opts.grace_ms as int)), opts.grace_ms as int)
    } else {
        opts.grace_ms as int
    }
}

/// How long to wait for a better candidate after the first one.
pub fn warte_fenster(opts: &PunchOptions, erster_ms: u64) -> (ms: u64)
    ensures
        ms == grace_window(*opts, erster_ms as int),
        ms <= opts.grace_ms,
{
    if !opts.grace_adaptiv {
        return opts.grace_ms;
    }
    let least: u64 = if opts.grace_ms <= 50 {
        opts.grace_ms
    } else {
        50
    };
    if erster_ms >= opts.grace_ms {
        opts.grace_ms
    } else if erster_ms >= least {
        erster_ms
    } else {
        least
    }
}

/// A connection that has come about.
#[derive(Debug, Clone, Copy, PartialEq, Eq)]
pub struct CandidateInfo {
    pub local_port: u16,
    pub remote_port: u16,
    pub is_lan: bool,
    /// Which of the local ports of the target it came from; none for an incoming connection.
    pub slot: Option<usize>,
    /// The key on which both sides agree.
    pub key: (u64, u64),
}

/// The order of keys: by the smaller number, then by the larger one.
pub open spec fn key_less(a: (u64, u64), b: (u64, u64)) -> bool {
    a.0 < b.0 || (a.0 == b.0 && a.1 < b.1)
}

/// A local candidate is better than another one if local ones are preferred; otherwise the smaller
/// key is better.
pub open spec fn better(new: CandidateInfo, cur: CandidateInfo, prefer_lan: bool) -> bool {
    if prefer_lan && new.is_lan != cur.is_lan {
        new.is_lan
    } else {
        key_less(new.key, cur.key)
    }
}

/// Whether a candidate is better than the current one.
pub fn is_better(new: &CandidateInfo, cur: &CandidateInfo, prefer_lan: bool) -> (yes: bool)
    ensures
        yes == better(*new, *cur, prefer_lan),
{
    if prefer_lan && new.is_lan != cur.is_lan {
        return new.is_lan;
    }
    new.key.0 < cur.key.0 || (new.key.0 == cur.key.0 && new.key.1 < cur.key.1)
}

/// A candidate in words.
pub open spec fn description(c: CandidateInfo) -> Seq<char> {
    "local="@ + decimal(c.local_port as nat) + " remote="@ + decimal(c.remote_port as nat) + (
    if c.is_lan {
        " LAN"@
    } else {
        " WAN"@
    })
}

/// A candidate in words.
pub fn describe(c: &CandidateInfo) -> (s: String)
    ensures
        s@ == description(*c),
{
    let mut s: String = "local=".to_string();
    push_decimal(&mut s, c.local_port as u64);
    s.append(" remote=");
    push_decimal(&mut s, c.remote_port as u64);
    if c.is_lan {
        s.append(" LAN");
    } else {
        s.append(" WAN");
    }
    s
}

/// The best of the candidates, in the order in which they came.
pub open spec fn best(candidates: Seq<CandidateInfo>, prefer_lan: bool) -> CandidateInfo
    decreases candidates.len(),
{
    if candidates.len() <= 1 {
        candidates[0]
    } else {
        let before = best(candidates.drop_last(), prefer_lan);
        if better(candidates.last(), before, prefer_lan) {
            candidates.last()
        } else {
            before
        }
    }
}

/// The candidates that have come about, and the one that is kept.
pub struct Selection {
    pub winner: CandidateInfo,
    pub prefer_lan: bool,
    /// How many candidates have come about.
    pub seen: usize,
    /// Whether a later candidate has replaced the first one.
    pub switched: bool,
    /// The candidates, in the order in which they came.
    pub candidates: Ghost<Seq<CandidateInfo>>,
}

impl Selection {
    /// The winner is the best of the candidates, and the candidates are counted.
    pub open spec fn wf(self) -> bool {
        &&& self.candidates@.len() > 0
        &&& self.seen == self.candidates@.len()
        &&& self.winner == best(self.candidates@, self.prefer_lan)
        &&& self.switched <==> self.winner != self.candidates@[0]
    }

    /// The first candidate is the winner so far.
    pub fn first(c: CandidateInfo, prefer_lan: bool) -> (s: Selection)
        ensures
            s.wf(),
            s.candidates@ == seq![c],
            s.winner == c,
            s.prefer_lan == prefer_lan,
    {
        let ghost only = seq![c];
        Selection { winner: c, prefer_lan, seen: 1, switched: false, candidates: Ghost(only) }
    }

    /// Whether it is worth waiting for a better candidate: not if a local one has been found and
    /// local ones are preferred.
    pub fn waits(&self) -> (yes: bool)
        ensures
            yes == !(self.prefer_lan && self.winner.is_lan),
    {
        !(self.prefer_lan && self.winner.is_lan)
    }

    /// Takes in another candidate; tells whether it is the winner now.
    pub fn offer(&mut self, c: CandidateInfo) -> (replaced: bool)
        requires
            old(self).wf(),
            old(self).seen < usize::MAX,
        ensures
            final(self).wf(),
            final(self).candidates@ == old(self).candidates@.push(c),
            final(self).prefer_lan == old(self).prefer_lan,
            replaced == better(c, old(self).winner, old(self).prefer_lan),
            final(self).winner == if replaced {
                c
            } else {
                old(self).winner
            },
    {
        let ghost before = self.candidates@;
        proof {
            assert(before.push(c).drop_last() == before);
            lemma_best_is_unbeaten(before, self.prefer_lan, 0);
            lemma_order(c, self.winner, before[0], self.prefer_lan);
        }
        self.seen = self.seen + 1;
        let replaced: bool = is_better(&c, &self.winner, self.prefer_lan);
        if replaced {
            self.winner = c;
            self.switched = true;
        }
        proof {
            self.candidates@ = before.push(c);
        }
        replaced
    }
}

/// Being better is a strict order: nothing is better than itself, and what is better than
/// something better is better.
pub proof fn lemma_order(a: CandidateInfo, b: CandidateInfo, c: CandidateInfo, prefer_lan: bool)
    ensures
        !better(a, a, prefer_lan),
        better(a, b, prefer_lan) ==> !better(b, a, prefer_lan),
        better(a, b, prefer_lan) && better(b, c, prefer_lan) ==> better(a, c, prefer_lan),
        better(a, b, prefer_lan) && !better(c, b, prefer_lan) ==> better(a, c, prefer_lan),
        a.key != b.key ==> better(a, b, prefer_lan) || better(b, a, prefer_lan),
{
}

proof fn lemma_best_is_unbeaten(candidates: Seq<CandidateInfo>, prefer_lan: bool, i: int)
    requires
        0 <= i < candidates.len(),
    ensures
        candidates.contains(best(candidates, prefer_lan)),
        !better(candidates[i], best(candidates, prefer_lan), prefer_lan),
    decreases candidates.len(),
{
    if candidates.len() == 1 {
        assert(candidates[0] == best(candidates, prefer_lan));
    } else {
        let front = candidates.drop_last();
        let last = candidates.last();
        let before = best(front, prefer_lan);
        lemma_best_is_unbeaten(front, prefer_lan, 0);
        let k = choose|k: int| 0 <= k < front.len() && front[k] == before;
        assert(candidates[k] == before);
        assert(candidates[candidates.len() - 1] == last);
        if i < front.len() {
            lemma_best_is_unbeaten(front, prefer_lan, i);
            assert(front[i] == candidates[i]);
            lemma_order(last, before, candidates[i], prefer_lan);
            lemma_order(candidates[i], last, before, prefer_lan);
        } else {
            lemma_order(last, before, last, prefer_lan);
        }
    }
}

/// No candidate is better than the one that is kept.
pub proof fn law_winner_is_unbeaten(candidates: Seq<CandidateInfo>, prefer_lan: bool, i: int)
    requires
        0 <= i < candidates.len(),
    ensures
        candidates.contains(best(candidates, prefer_lan)),
        !better(candidates[i], best(candidates, prefer_lan), prefer_lan),
{
    lemma_best_is_unbeaten(candidates, prefer_lan, i);
}

/// Whether a list holds a connection with this key that counts as local or not.
pub open spec fn has_connection(
    candidates: Seq<CandidateInfo>,
    key: (u64, u64),
    is_lan: bool,
) -> bool {
    exists|i: int|
        0 <= i < candidates.len() && (#[trigger] candidates[i]).key == key && candidates[i].is_lan
            == is_lan
}

/// Both sides keep the same connection: if they have seen the same connections, in whatever order,
/// the connections that they keep have the same key.
pub proof fn law_both_sides_keep_the_same(
    here: Seq<CandidateInfo>,
    there: Seq<CandidateInfo>,
    prefer_lan: bool,
)
    requires
        here.len() > 0,
        there.len() > 0,
        forall|key: (u64, u64), is_lan: bool|
            has_connection(here, key, is_lan) <==> has_connection(there, key, is_lan),
    ensures
        best(here, prefer_lan).key == best(there, prefer_lan).key,
{
    let a = best(here, prefer_lan);
    let b = best(there, prefer_lan);
    lemma_best_is_unbeaten(here, prefer_lan, 0);
    lemma_best_is_unbeaten(there, prefer_lan, 0);
    let i = choose|i: int| 0 <= i < here.len() && here[i] == a;
    let j = choose|j: int| 0 <= j < there.len() && there[j] == b;
    assert(here[i].key == a.key && here[i].is_lan == a.is_lan);
    assert(has_connection(here, a.key, a.is_lan));
    assert(there[j].key == b.key && there[j].is_lan == b.is_lan);
    assert(has_connection(there, b.key, b.is_lan));
    assert(has_connection(there, a.key, a.is_lan));
    assert(has_connection(here, b.key, b.is_lan));
    let x = choose|x: int|
        0 <= x < there.len() && (#[trigger] there[x]).key == a.key && there[x].is_lan == a.is_lan;
    let y = choose|y: int|
        0 <= y < here.len() && (#[trigger] here[y]).key == b.key && here[y].is_lan == b.is_lan;
    lemma_best_is_unbeaten(there, prefer_lan, x);
    lemma_best_is_unbeaten(here, prefer_lan, y);
}

/// How many local ports are held per target: as many as configured, as far as the budget reaches,
/// but at least one.
pub open spec fn ports_per_target(opts: PunchOptions, targets: int) -> int {
    at_most(
        at_least(opts.parallel_ports as int, 1),
        at_least(opts.socket_budget as int / at_least(targets, 1), 1),
    )
}

/// In how many groups the targets are served: each on its own, as far as the budget reaches.
pub open spec fn groups(opts: PunchOptions, targets: int) -> int {
    at_most(
        targets,
        at_least(at_least(opts.socket_budget as int, 1) / ports_per_target(opts, targets), 1),
    )
}

/// How the sockets are spread over the targets.
#[derive(Debug, Clone, Copy, PartialEq, Eq, Structural)]
pub struct PunchPlan {
    pub ports_per_target: usize,
    pub groups: usize,
    /// How long a target is served if the targets of a group are served in turn.
    pub rotate_after_ms: Option<u64>,
}

pub open spec fn plan_for(opts: PunchOptions, targets: int) -> PunchPlan {
    PunchPlan {
        ports_per_target: ports_per_target(opts, targets) as usize,
        groups: groups(opts, targets) as usize,
        rotate_after_ms: if groups(opts, targets) < targets && ports_per_target(opts, targets)
            == 1 {
            match opts.rotate_after_ms {
                Some(ms) => Some(ms),
                None => Some(800),
            }
        } else {
            None
        },
    }
}

/// Spreads the sockets over a number of targets.
pub fn plan(opts: &PunchOptions, targets: usize) -> (p: PunchPlan)
    ensures
        p == plan_for(*opts, targets as int),
        1 <= p.ports_per_target,
        p.ports_per_target <= opts.parallel_ports || p.ports_per_target == 1,
{
    let wanted: usize = if opts.parallel_ports >= 1 {
        opts.parallel_ports
    } else {
        1
    };
    let share: usize = opts.socket_budget / (if targets >= 1 {
        targets
    } else {
        1
    });
    let affordable: usize = if share >= 1 {
        share
    } else {
        1
    };
    let ports: usize = if wanted <= affordable {
        wanted
    } else {
        affordable
    };
    let budget: usize = if opts.socket_budget >= 1 {
        opts.socket_budget
    } else {
        1
    };
    let quotient: usize = budget / ports;
    let bound: usize = if quotient >= 1 {
        quotient
    } else {
        1
    };
    let groups: usize = if targets <= bound {
        targets
    } else {
        bound
    };
    let rotate_after_ms: Option<u64> = if groups < targets && ports == 1 {
        match opts.rotate_after_ms {
            Some(ms) => Some(ms),
            None => Some(800),
        }
    } else {
        None
    };
    PunchPlan { ports_per_target: ports, groups, rotate_after_ms }
}

/// No more sockets are held at once than the budget allows, and never none.
pub proof fn law_plan_stays_in_budget(opts: PunchOptions, targets: int)
    requires
        targets >= 1,
    ensures
        1 <= ports_per_target(opts, targets),
        1 <= groups(opts, targets) <= targets,
        groups(opts, targets) * ports_per_target(opts, targets) <= at_least(
            opts.socket_budget as int,
            1,
        ),
{
    let ports = ports_per_target(opts, targets);
    let budget = at_least(opts.socket_budget as int, 1);
    let q = budget / ports;
    assert(opts.socket_budget as int / targets <= opts.socket_budget) by (nonlinear_arith)
        requires
            targets >= 1,
            opts.socket_budget >= 0,
    ;
    assert(ports <= budget);
    assert(q >= 1 && q * ports <= budget) by (nonlinear_arith)
        requires
            1 <= ports <= budget,
            q == budget / ports,
    ;
    assert(groups(opts, targets) * ports <= q * ports) by (nonlinear_arith)
        requires
            groups(opts, targets) <= q,
            ports >= 1,
    ;
}

/// As many local ports are held per target as are configured whenever the budget reaches for that on
/// all targets. If it does not, there are as many as it reaches for, and at least one. There are
/// never more than configured, but for the one that there always is.
pub proof fn law_configured_ports_are_held(opts: PunchOptions, targets: int)
    requires
        1 <= targets <= usize::MAX,
    ensures
        ({
            let ports = plan_for(opts, targets).ports_per_target as int;
            &&& 1 <= ports
            &&& ports <= opts.parallel_ports || ports == 1
            &&& opts.parallel_ports >= 1 && targets * opts.parallel_ports <= opts.socket_budget
                ==> ports == opts.parallel_ports
            &&& ports < opts.parallel_ports ==> targets * (ports + 1) > opts.socket_budget
            &&& ports > 1 ==> targets * ports <= opts.socket_budget
        }),
{
    let (budget, wanted) = (opts.socket_budget as int, opts.parallel_ports as int);
    let share = budget / targets;
    let ports = ports_per_target(opts, targets);
    vstd::arithmetic::div_mod::lemma_fundamental_div_mod(budget, targets);
    assert(0 <= share <= budget) by (nonlinear_arith)
        requires
            share == budget / targets,
            targets >= 1,
            budget >= 0,
    ;
    assert(targets * wanted <= budget ==> wanted <= share) by (nonlinear_arith)
        requires
            budget == targets * share + budget % targets,
            0 <= budget % targets < targets,
    ;
    assert(targets * (share + 1) == targets * share + targets) by (nonlinear_arith);
    if ports < wanted {
        assert(share <= ports);
        assert(targets * (ports + 1) >= targets * (share + 1)) by (nonlinear_arith)
            requires
                ports >= share,
                targets >= 1,
        ;
    }
    if ports > 1 {
        assert(targets * ports <= targets * share) by (nonlinear_arith)
            requires
                ports <= share,
                targets >= 1,
        ;
    }
}

/// Every target has sockets of its own whenever the budget reaches for that. If it does not, each
/// socket of the budget serves a group, on one local port, and turns to the next target after the
/// configured time, or after 800 milliseconds where none is configured. Otherwise no socket turns.
pub proof fn law_budget_is_spent(opts: PunchOptions, targets: int)
    requires
        1 <= targets <= usize::MAX,
    ensures
        ({
            let p = plan_for(opts, targets);
            &&& targets <= opts.socket_budget ==> p.groups == targets
            &&& targets > opts.socket_budget ==> p.ports_per_target == 1
            &&& targets > opts.socket_budget >= 1 ==> p.groups == opts.socket_budget
            &&& opts.socket_budget == 0 ==> p.groups == 1
            &&& p.groups == targets ==> p.rotate_after_ms is None
            &&& p.groups < targets && opts.rotate_after_ms is Some ==> p.rotate_after_ms
                == opts.rotate_after_ms
            &&& p.groups < targets && opts.rotate_after_ms is None ==> p.rotate_after_ms == Some(
                800u64,
            )
        }),
{
    let budget = opts.socket_budget as int;
    let ports = ports_per_target(opts, targets);
    law_configured_ports_are_held(opts, targets);
    law_shared_sockets_rotate(opts, targets);
    law_plan_stays_in_budget(opts, targets);
    if targets <= budget {
        if ports == 1 {
            assert(budget / 1 == budget) by (nonlinear_arith);
        } else {
            assert(groups(opts, targets) >= targets);
        }
    } else {
        if ports > 1 {
            assert(targets * ports > budget) by (nonlinear_arith)
                requires
                    targets > budget,
                    ports > 1,
                    budget >= 0,
            ;
        }
        assert(budget / 1 == budget && 1int / 1 == 1) by (nonlinear_arith);
    }
}

/// The wait for a better candidate is as long as the first one took, but not shorter than 50
/// milliseconds and not longer than configured, which comes first; or as long as configured if it is
/// fixed.
pub proof fn law_wait_follows_the_first(opts: PunchOptions, first_ms: int)
    ensures
        ({
            let ms = grace_window(opts, first_ms);
            &&& ms <= opts.grace_ms
            &&& !opts.grace_adaptiv ==> ms == opts.grace_ms
            &&& opts.grace_adaptiv && 50 <= first_ms <= opts.grace_ms ==> ms == first_ms
            &&& opts.grace_adaptiv && first_ms < 50 <= opts.grace_ms ==> ms == 50
            &&& first_ms > opts.grace_ms || opts.grace_ms < 50 ==> ms == opts.grace_ms
        }),
{
}

/// If local candidates are preferred, a local one beats every other one, whatever the keys. Among
/// candidates that are alike in this, or if there is no preference, the smaller key wins: the one
/// with the smaller first number, or with the smaller second one where the first is the same.
pub proof fn law_local_and_smaller_keys_win(a: CandidateInfo, b: CandidateInfo, prefer_lan: bool)
    ensures
        prefer_lan && a.is_lan && !b.is_lan ==> better(a, b, prefer_lan) && !better(
            b,
            a,
            prefer_lan,
        ),
        !prefer_lan || a.is_lan == b.is_lan ==> (better(a, b, prefer_lan) <==> (a.key.0 < b.key.0
            || a.key.0 == b.key.0 && a.key.1 < b.key.1)),
{
}

/// The candidate that is kept is one of those that came. If local ones are preferred and one came, it
/// is local. No other candidate of its kind has a smaller key, and none that came before it has the
/// same key.
pub proof fn law_kept_candidate(candidates: Seq<CandidateInfo>, prefer_lan: bool) -> (at: int)
    requires
        candidates.len() > 0,
    ensures
        0 <= at < candidates.len(),
        best(candidates, prefer_lan) == candidates[at],
        prefer_lan && (exists|i: int| 0 <= i < candidates.len() && #[trigger] candidates[i].is_lan)
            ==> candidates[at].is_lan,
        forall|i: int|
            0 <= i < candidates.len() && (!prefer_lan || (#[trigger] candidates[i]).is_lan
                == candidates[at].is_lan) ==> {
                let (mine, other) = (candidates[at].key, candidates[i].key);
                &&& mine.0 < other.0 || (mine.0 == other.0 && mine.1 <= other.1)
                &&& i < at ==> mine != other
            },
    decreases candidates.len(),
{
    if candidates.len() == 1 {
        0
    } else {
        let front = candidates.drop_last();
        let last = candidates.last();
        let k = law_kept_candidate(front, prefer_lan);
        assert forall|i: int| 0 <= i < front.len() implies front[i] == candidates[i] by {}
        let at = if better(last, front[k], prefer_lan) {
            candidates.len() - 1
        } else {
            k
        };
        assert forall|i: int|
            0 <= i < candidates.len() && (!prefer_lan || (#[trigger] candidates[i]).is_lan
                == candidates[at].is_lan) implies {
            let (mine, other) = (candidates[at].key, candidates[i].key);
            &&& mine.0 < other.0 || (mine.0 == other.0 && mine.1 <= other.1)
            &&& i < at ==> mine != other
        } by {
            if i < front.len() {
                assert(front[i] == candidates[i]);
                assert(prefer_lan && front[i].is_lan ==> front[k].is_lan);
            }
        }
        if prefer_lan && exists|i: int|
            0 <= i < candidates.len() && #[trigger] candidates[i].is_lan {
            let i = choose|i: int| 0 <= i < candidates.len() && #[trigger] candidates[i].is_lan;
            if i < front.len() {
                assert(front[i].is_lan);
            }
        }
        at
    }
}

/// What a selection tells of the candidates: which one is kept, how many there were, and whether the
/// one that is kept is another than the first.
pub proof fn law_selection_tells_the_candidates(s: Selection)
    requires
        s.wf(),
    ensures
        s.candidates@.contains(s.winner),
        s.seen == s.candidates@.len(),
        s.switched <==> s.winner != s.candidates@[0],
        s.winner == best(s.candidates@, s.prefer_lan),
{
    lemma_best_is_unbeaten(s.candidates@, s.prefer_lan, 0);
}

/// Whenever targets share a socket, they are served in turn, so that none is left out.
pub proof fn law_shared_sockets_rotate(opts: PunchOptions, targets: int)
    requires
        targets >= 1,
    ensures
        groups(opts, targets) < targets ==> ports_per_target(opts, targets) == 1 && plan_for(
            opts,
            targets,
        ).rotate_after_ms is Some,
{
    let ports = ports_per_target(opts, targets);
    let budget = opts.socket_budget as int;
    if ports > 1 {
        assert(ports <= budget / targets);
        assert(budget / ports >= targets) by (nonlinear_arith)
            requires
                1 < ports <= budget / targets,
                targets >= 1,
                budget >= 0,
        ;
    }
}

/// The targets of a group: every `groups`-th one from the number of the group on, so that each
/// group reaches over the whole range.
pub open spec fn group_targets(targets: Seq<Target>, group: int, groups: int) -> Seq<Target> {
    Seq::new(
        group_len(targets.len() as int, group, groups) as nat,
        |k: int| targets[group + k * groups],
    )
}

pub open spec fn group_len(targets: int, group: int, groups: int) -> int {
    if group < targets {
        (targets - group + groups - 1) / groups
    } else {
        0
    }
}

/// The targets of a group.
pub fn group_members(targets: &Vec<Target>, group: usize, groups: usize) -> (members: Vec<Target>)
    requires
        groups > 0,
    ensures
        members@ == group_targets(targets@, group as int, groups as int),
{
    let mut members: Vec<Target> = Vec::new();
    let total: usize = targets.len();
    let mut at: usize = group;
    let ghost (n, g, step) = (total as int, group as int, groups as int);
    if at < total {
        assert(0 * step == 0) by (nonlinear_arith);
        loop
            invariant_except_break
                at < total,
                at == g + members@.len() * step,
            invariant
                total == targets@.len(),
                groups > 0,
                n == total,
                g == group,
                step == groups,
                g < n,
                members@ == Seq::new(members@.len(), |k: int| targets@[g + k * step]),
            ensures
                members@.len() == group_len(n, g, step),
            decreases total - at,
        {
            let ghost k = members@.len() as int;
            members.push(targets[at]);
            assert(members@ =~= Seq::new((k + 1) as nat, |k: int| targets@[g + k * step]));
            assert((k + 1) * step == k * step + step) by (nonlinear_arith);
            if total - at <= groups {
                assert((n - g + step - 1) / step == k + 1) by (nonlinear_arith)
                    requires
                        step > 0,
                        g + k * step < n <= g + (k + 1) * step,
                ;
                break;
            }
            at = at + groups;
        }
    }
    assert(members@ =~= group_targets(targets@, g, step));
    members
}

/// Each target belongs to exactly one group, at one place.
pub proof fn law_groups_partition_targets(targets: Seq<Target>, groups: int, i: int)
    requires
        groups > 0,
        0 <= i < targets.len(),
    ensures
        0 <= i % groups < groups,
        0 <= i / groups < group_targets(targets, i % groups, groups).len(),
        group_targets(targets, i % groups, groups)[i / groups] == targets[i],
        forall|group: int, k: int|
            0 <= group < groups && 0 <= k < group_len(targets.len() as int, group, groups)
                && #[trigger] (group + k * groups) == i ==> group == i % groups && k == i / groups,
{
    let n = targets.len() as int;
    let (group, k) = (i % groups, i / groups);
    vstd::arithmetic::div_mod::lemma_fundamental_div_mod(i, groups);
    assert(groups * k == k * groups) by (nonlinear_arith);
    assert(0 <= k && group <= i) by (nonlinear_arith)
        requires
            groups > 0,
            i >= 0,
            group == i % groups,
            k == i / groups,
            i == groups * k + group,
    ;
    assert(k < (n - group + groups - 1) / groups) by (nonlinear_arith)
        requires
            groups > 0,
            group + k * groups < n,
    ;
    assert forall|other: int, m: int|
        0 <= other < groups && 0 <= m < group_len(n, other, groups) && #[trigger] (other + m
            * groups) == i implies other == i % groups && m == i / groups by {
        vstd::arithmetic::div_mod::lemma_fundamental_div_mod_converse(i, groups, m, other);
    }
}

/// The members of a group are every so many targets, as far as there are any, so that each group
/// reaches over the whole list and the groups differ by one member at most.
pub proof fn law_group_reaches_over_the_list(
    targets: Seq<Target>,
    group: int,
    groups: int,
    k: int,
)
    requires
        0 <= group < groups,
        0 <= k,
    ensures
        k < group_targets(targets, group, groups).len() <==> group + k * groups < targets.len(),
        k < group_targets(targets, group, groups).len() ==> group_targets(
            targets,
            group,
            groups,
        )[k] == targets[group + k * groups],
{
    let n = targets.len() as int;
    if group < n {
        let len = (n - group + groups - 1) / groups;
        vstd::arithmetic::div_mod::lemma_fundamental_div_mod(n - group + groups - 1, groups);
        assert(len >= 0 && (k < len <==> k * groups < n - group)) by (nonlinear_arith)
            requires
                groups > 0,
                k >= 0,
                group < n,
                n - group + groups - 1 == groups * len + (n - group + groups - 1) % groups,
                0 <= (n - group + groups - 1) % groups < groups,
        ;
    } else {
        assert(k * groups >= 0) by (nonlinear_arith)
            requires
                k >= 0,
                groups > 0,
        ;
    }
}

/// The target that is served after another one; the first one comes after the last one.
pub open spec fn target_behind(index: int, count: int) -> int {
    (index + 1) % count
}

/// A worker that tries the targets of a group from one local port.
#[derive(Debug, Clone, Copy, PartialEq, Eq, Structural)]
pub struct Connector {
    /// How many targets the group has.
    pub count: usize,
    /// Which of them is being tried.
    pub index: usize,
    pub rotate_after_ms: Option<u64>,
}

impl Connector {
    pub open spec fn wf(self) -> bool {
        self.index < self.count
    }

    /// Whether the targets are tried in turn.
    pub open spec fn rotates(self) -> bool {
        self.rotate_after_ms is Some && self.count > 1
    }

    /// A worker for a group; none for a group without targets.
    pub fn start(count: usize, rotate_after_ms: Option<u64>) -> (c: Option<Connector>)
        ensures
            c == if count > 0 {
                Some(Connector { count, index: 0, rotate_after_ms })
            } else {
                None
            },
    {
        if count == 0 {
            return None;
        }
        Some(Connector { count, index: 0, rotate_after_ms })
    }

    /// Turns to the next target if the current one has had its time; tells whether it did.
    pub fn turn(&mut self, since_ms: u64) -> (turned: bool)
        requires
            old(self).wf(),
        ensures
            final(self).wf(),
            turned == (old(self).rotates() && since_ms >= old(self).rotate_after_ms.unwrap()),
            *final(self) == (Connector {
                index: if turned {
                    target_behind(old(self).index as int, old(self).count as int) as usize
                } else {
                    old(self).index
                },
                ..*old(self)
            }),
    {
        if let Some(ms) = self.rotate_after_ms {
            if self.count > 1 && since_ms >= ms {
                proof {
                    let (next, count) = (self.index as int + 1, self.count as int);
                    if next == count {
                        vstd::arithmetic::div_mod::lemma_mod_self_0(count);
                    } else {
                        vstd::arithmetic::div_mod::lemma_small_mod(next as nat, count as nat);
                    }
                }
                self.index = if self.index + 1 == self.count {
                    0
                } else {
                    self.index + 1
                };
                return true;
            }
        }
        false
    }

    /// How long to wait for a connection at most, within the time budget.
    pub fn wait_limit_ms(&self) -> (limit: Option<u64>)
        ensures
            limit == if self.rotates() {
                self.rotate_after_ms
            } else {
                None
            },
    {
        if self.count > 1 {
            self.rotate_after_ms
        } else {
            None
        }
    }

    /// What follows an attempt. A connection that has come about and has been greeted ends the
    /// worker. A refused one is tried again after a pause. One that has not come about in time is
    /// given up, unless there is another target to turn to.
    pub fn after(&self, attempt: Attempt) -> (next: NextAttempt)
        ensures
            next == match attempt {
                Attempt::Greeted => NextAttempt::Report,
                Attempt::NotStarted | Attempt::Refused | Attempt::NotGreeted => NextAttempt::Pause,
                Attempt::TimedOut => if self.rotates() {
                    NextAttempt::Again
                } else {
                    NextAttempt::Stop
                },
            },
    {
        match attempt {
            Attempt::Greeted => NextAttempt::Report,
            Attempt::NotStarted | Attempt::Refused | Attempt::NotGreeted => NextAttempt::Pause,
            Attempt::TimedOut => {
                if self.rotate_after_ms.is_some() && self.count > 1 {
                    NextAttempt::Again
                } else {
                    NextAttempt::Stop
                }
            },
        }
    }
}

/// What came of an attempt to connect.
#[derive(Debug, Clone, Copy, PartialEq, Eq, Structural)]
pub enum Attempt {
    /// There was no socket, no port for it, or the connection was refused at once.
    NotStarted,
    /// The connection was refused, and with it the mapping of the NAT is lost.
    Refused,
    /// The socket was held until the time was over.
    TimedOut,
    /// A connection came about, but the first exchange on it failed.
    NotGreeted,
    /// A connection came about, and its key is known.
    Greeted,
}

/// What a worker does after an attempt.
#[derive(Debug, Clone, Copy, PartialEq, Eq, Structural)]
pub enum NextAttempt {
    Report,
    Pause,
    Again,
    Stop,
}

/// The local port of a worker: the port that the peer knows for the first worker of a target, and
/// any free one for the others.
pub fn bind_port(slot: usize, local_port: u16) -> (port: u16)
    ensures
        port == if slot == 0 {
            local_port
        } else {
            0
        },
{
    if slot == 0 {
        local_port
    } else {
        0
    }
}

/// A worker that has turned `k` times from the start tries target `k` modulo their number: the
/// targets are served in turn.
pub proof fn law_connector_serves_in_turn(count: int, k: nat)
    requires
        count > 0,
    ensures
        turned(count, k) == k as int % count,
    decreases k,
{
    if k > 0 {
        law_connector_serves_in_turn(count, (k - 1) as nat);
        vstd::arithmetic::div_mod::lemma_add_mod_noop_right(1, k - 1, count);
    } else {
        vstd::arithmetic::div_mod::lemma_small_mod(0, count as nat);
    }
}

/// A worker turns to another target only if there is one, and if it has a time for each.
pub proof fn law_worker_turns_among_several(c: Connector)
    ensures
        c.rotates() <==> c.count >= 2 && c.rotate_after_ms is Some,
{
}

/// The target after `k` turns.
pub open spec fn turned(count: int, k: nat) -> int
    decreases k,
{
    if k == 0 {
        0
    } else {
        target_behind(turned(count, (k - 1) as nat), count)
    }
}

/// How many candidates the channel to the caller can hold.
pub fn channel_capacity(targets: usize, ports_per_target: usize) -> (n: usize)
    requires
        targets * ports_per_target + 2 <= usize::MAX,
    ensures
        n == at_least(targets * ports_per_target + 2, 4),
{
    assert(targets * ports_per_target >= 0) by (nonlinear_arith)
        requires
            targets >= 0,
            ports_per_target >= 0,
    ;
    let n: usize = targets * ports_per_target + 2;
    if n >= 4 {
        n
    } else {
        4
    }
}

/// The options in force for a connection: one local port where the own NAT allocates predictably,
/// since the peer knows exactly that one.
pub fn effective_options(opts: &PunchOptions, auto_parallel: bool, own_needs_scan: Option<bool>)
    -> (o: PunchOptions)
    ensures
        o == (PunchOptions {
            parallel_ports: if auto_parallel && opts.parallel_ports > 1 && own_needs_scan != Some(
                true,
            ) {
                1
            } else {
                opts.parallel_ports
            },
            ..*opts
        }),
{
    let mut o = *opts;
    if auto_parallel && o.parallel_ports > 1 {
        let own_band: bool = match own_needs_scan {
            Some(needs_scan) => needs_scan,
            None => false,
        };
        if !own_band {
            o.parallel_ports = 1;
        }
    }
    o
}

} // verus!
