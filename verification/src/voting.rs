//! The voting state: who may vote, what the votes are, when a voting period
//! ends, and which effect (or player) wins.
use vstd::prelude::*;

use crate::config::Config;
use crate::effects::{fresh_vote, Vote, VoteView, MAX_PLAYERS, NUM_EFFECTS};
use crate::vote_text::{ascii_lower, is_ascii_text, parse_vote, lowercase_of, spec_parse_vote};
use crate::utils::{is_time_range, spec_is_time_range};
use crate::GameModes;

verus! {

/// Number of effects offered to the chat at a time.
pub const VOTING_ROTATION_NUM_EFFECTS: usize = 3;

/// Everything the vote counter keeps between calls.
pub struct Voting {
    pub mode: GameModes,
    /// Length of a voting period in seconds.
    pub voting_interval: u32,
    /// One record per effect, indexed by effect; empty until the first match.
    pub votes: Vec<Vote>,
    /// Match clock reading when the current voting period began; 0 while no
    /// period runs.
    pub voting_period_begin: u32,
    /// The effects offered to the chat; when the chat picks a player, slot 0
    /// holds the effect being given away.
    pub rotation: [Option<usize>; 3],
    /// Chatters who have voted in the current period.
    pub voter_names: Vec<String>,
    /// When the chat picks a player: the slot of the player the effects run on.
    pub player_effect_number: Option<usize>,
    /// When the chat picks a player: every fighter slot has been recorded.
    pub is_players_populated: bool,
    /// Whether the match was running at the last frame.
    pub last_ready_go: bool,
    /// For effects timed by one clock shared by all fighters, the reading
    /// when the effect last turned on.
    pub effect_clocks: [u32; 13],
    /// The effect a developer can force on with the taunt button.
    pub debug_effect_index: usize,
}

/// [`Voting`] with its collections as sequences.
pub struct VotingView {
    pub mode: GameModes,
    pub voting_interval: u32,
    pub votes: Seq<VoteView>,
    pub voting_period_begin: u32,
    pub rotation: Seq<Option<usize>>,
    pub voter_names: Seq<Seq<char>>,
    pub player_effect_number: Option<usize>,
    pub is_players_populated: bool,
    pub last_ready_go: bool,
    pub effect_clocks: Seq<u32>,
    pub debug_effect_index: usize,
}

pub open spec fn vote_views(s: Seq<Vote>) -> Seq<VoteView> {
    s.map_values(|v: Vote| v@)
}

pub open spec fn name_views(s: Seq<String>) -> Seq<Seq<char>> {
    s.map_values(|n: String| n@)
}

impl View for Voting {
    type V = VotingView;

    open spec fn view(&self) -> VotingView {
        VotingView {
            mode: self.mode,
            voting_interval: self.voting_interval,
            votes: vote_views(self.votes@),
            voting_period_begin: self.voting_period_begin,
            rotation: self.rotation@,
            voter_names: name_views(self.voter_names@),
            player_effect_number: self.player_effect_number,
            is_players_populated: self.is_players_populated,
            last_ready_go: self.last_ready_go,
            effect_clocks: self.effect_clocks@,
            debug_effect_index: self.debug_effect_index,
        }
    }
}

/// One fresh record per effect.
pub open spec fn fresh_votes() -> Seq<VoteView> {
    Seq::new(NUM_EFFECTS as nat, |i: int| fresh_vote())
}

/// No effect is offered.
pub open spec fn rotation_empty(r: Seq<Option<usize>>) -> bool {
    forall|s: int| 0 <= s < r.len() ==> r[s] is None
}

/// Every slot offers an effect, no effect twice.
pub open spec fn rotation_full(r: Seq<Option<usize>>) -> bool {
    &&& forall|s: int| 0 <= s < r.len() ==> (#[trigger] r[s] matches Some(e) && e < NUM_EFFECTS)
    &&& forall|s: int, t: int| 0 <= s < t < r.len() ==> r[s] != r[t]
}

/// The offered effects that are set are valid and pairwise different.
pub open spec fn rotation_distinct(r: Seq<Option<usize>>) -> bool {
    &&& forall|s: int| 0 <= s < r.len() ==> (#[trigger] r[s] matches Some(e) ==> e < NUM_EFFECTS)
    &&& forall|s: int, t: int| 0 <= s < t < r.len() && r[s] is Some ==> r[s] != r[t]
}

impl VotingView {
    /// The invariant of the voting state.
    pub open spec fn wf(self) -> bool {
        &&& self.votes.len() == 0 || self.votes.len() == NUM_EFFECTS
        &&& forall|e: int| 0 <= e < self.votes.len() ==> (#[trigger] self.votes[e]).wf()
        &&& self.rotation.len() == VOTING_ROTATION_NUM_EFFECTS
        &&& self.effect_clocks.len() == NUM_EFFECTS
        &&& rotation_empty(self.rotation) || rotation_full(self.rotation)
        &&& self.voting_period_begin != 0 ==> (rotation_full(self.rotation) && self.votes.len()
            == NUM_EFFECTS)
        &&& self.debug_effect_index < NUM_EFFECTS
    }

    /// The effect at rotation slot `s` (meaningful when the slot is set).
    pub open spec fn offered(self, s: int) -> usize {
        self.rotation[s]->Some_0
    }

    /// Votes are reset. When the chat picks effects, every record starts
    /// over. When it picks players, an empty table is filled with fresh
    /// records; an existing one keeps its fighter slots and clock readings,
    /// but every record is switched off with no votes and off for every
    /// fighter, and the chosen player is forgotten.
    pub open spec fn init_votes(self) -> VotingView {
        match self.mode {
            GameModes::ChooseEffect => VotingView { votes: fresh_votes(), ..self },
            GameModes::ChoosePlayer => if self.votes.len() == 0 {
                VotingView { votes: fresh_votes(), ..self }
            } else {
                VotingView {
                    votes: self.votes.map_values(|v: VoteView| reset_record(v)),
                    player_effect_number: None,
                    ..self
                }
            },
        }
    }
}

impl VotingView {
    /// The state after `effect` runs out. When the chat picks effects, only
    /// `effect` is switched off, still on for the fighters it is on for
    /// until each of them turns it off; the other effects keep running, and
    /// every vote count starts over. When the chat picks a player, the votes
    /// are reset as by [`VotingView::init_votes`], which also turns every
    /// effect off for every fighter.
    pub open spec fn expire(self, effect: int) -> VotingView {
        match self.mode {
            GameModes::ChooseEffect => VotingView {
                votes: Seq::new(
                    self.votes.len(),
                    |j: int|
                        if j == effect {
                            VoteView { is_enabled: false, ..clear_counts(self.votes[j]) }
                        } else {
                            clear_counts(self.votes[j])
                        },
                ),
                ..self
            },
            GameModes::ChoosePlayer => self.init_votes(),
        }
    }
}

/// `v` with no votes.
pub open spec fn clear_counts(v: VoteView) -> VoteView {
    VoteView { votes: Seq::new(MAX_PLAYERS as nat, |i: int| 0usize), ..v }
}

/// A slot's entry after a reset: a fighter stays, with the effect off.
pub open spec fn reset_slot(p: Option<bool>) -> Option<bool> {
    match p {
        Some(_) => Some(false),
        None => None,
    }
}

/// `v` switched off, with no votes and off for every fighter; its fighter
/// slots and clock readings stay.
pub open spec fn reset_record(v: VoteView) -> VoteView {
    VoteView {
        votes: Seq::new(MAX_PLAYERS as nat, |i: int| 0usize),
        is_enabled: false,
        players: v.players.map_values(|p: Option<bool>| reset_slot(p)),
        activate_times: v.activate_times,
    }
}

/// `v` with one more vote for player slot `k` (slot 0 when effects are voted on).
pub open spec fn bump(v: VoteView, k: int) -> VoteView {
    VoteView { votes: v.votes.update(k, (v.votes[k] + 1) as usize), ..v }
}

/// `v`, voted in.
pub open spec fn enable(v: VoteView) -> VoteView {
    VoteView { is_enabled: true, ..v }
}

/// Every vote counter can take one more vote.
pub open spec fn counts_below_max(m: VotingView) -> bool {
    forall|e: int, k: int|
        0 <= e < m.votes.len() && 0 <= k < MAX_PLAYERS ==> #[trigger] m.votes[e].votes[k]
            < usize::MAX
}

/// Voting is open: a period runs and the match is on.
pub open spec fn voting_open(m: VotingView, is_ready_go: bool) -> bool {
    m.voting_period_begin != 0 && is_ready_go
}

/// Votes are looked at: voting is open and, when the chat picks a player,
/// every fighter has been recorded.
pub open spec fn votes_looked_at(m: VotingView, is_ready_go: bool) -> bool {
    &&& voting_open(m, is_ready_go)
    &&& (m.mode == GameModes::ChooseEffect || m.is_players_populated)
}

/// A vote while the chat picks effects: `n` in 1..=3 votes for the effect in
/// rotation slot `n - 1`, once per chatter and period.
pub open spec fn effect_vote_cast(m: VotingView, vote: Option<usize>, name: Seq<char>) -> (
    VotingView,
    bool,
) {
    match vote {
        Some(n) => if 1 <= n <= VOTING_ROTATION_NUM_EFFECTS && m.rotation[n - 1] is Some
            && !m.voter_names.contains(name) {
            let e = m.offered(n - 1) as int;
            (
                VotingView {
                    votes: m.votes.update(e, bump(m.votes[e], 0)),
                    voter_names: m.voter_names.push(name),
                    ..m
                },
                true,
            )
        } else {
            (m, false)
        },
        None => (m, false),
    }
}

/// A vote while the chat picks a player: `n` in 1..=`total_fighters` votes
/// for player slot `n - 1`, once per chatter and period.
pub open spec fn player_vote_cast(
    m: VotingView,
    vote: Option<usize>,
    name: Seq<char>,
    total_fighters: usize,
) -> (VotingView, bool) {
    match vote {
        Some(n) => if 1 <= n <= total_fighters && m.rotation[0] is Some
            && !m.voter_names.contains(name) {
            let e = m.offered(0) as int;
            (
                VotingView {
                    votes: m.votes.update(e, bump(m.votes[e], n - 1)),
                    voter_names: m.voter_names.push(name),
                    ..m
                },
                true,
            )
        } else {
            (m, false)
        },
        None => (m, false),
    }
}

/// The state after a chat message reading as `vote` from `name`, and
/// whether it was counted.
pub open spec fn spec_update_votes(
    m: VotingView,
    vote: Option<usize>,
    name: Seq<char>,
    is_ready_go: bool,
    total_fighters: usize,
) -> (VotingView, bool) {
    if !voting_open(m, is_ready_go) {
        (m, false)
    } else {
        match m.mode {
            GameModes::ChooseEffect => effect_vote_cast(m, vote, name),
            GameModes::ChoosePlayer => if m.is_players_populated {
                player_vote_cast(m, vote, name, total_fighters)
            } else {
                (m, false)
            },
        }
    }
}

/// The period is over when votes are looked at and the voting interval has
/// gone by on the match clock.
pub open spec fn spec_period_over(m: VotingView, is_ready_go: bool, now: u32) -> bool {
    votes_looked_at(m, is_ready_go) && spec_is_time_range(
        m.voting_period_begin,
        m.voting_interval,
        now,
    )
}

/// What a vote update needs: a player vote names a fighter slot that
/// exists, and no counter is full.
pub open spec fn update_votes_defined(
    m: VotingView,
    is_ready_go: bool,
    total_fighters: usize,
) -> bool {
    &&& (voting_open(m, is_ready_go) && m.mode == GameModes::ChoosePlayer) ==> total_fighters
        <= MAX_PLAYERS
    &&& counts_below_max(m)
}

// ---------------------------------------------------------------------------
// Counting the result
// ---------------------------------------------------------------------------

/// The entries that share the highest count so far, scanning left to right:
/// a higher count replaces them, an equal count joins them.
pub open spec fn tally(entries: Seq<(usize, usize)>) -> Seq<(usize, usize)>
    decreases entries.len(),
{
    if entries.len() == 0 {
        Seq::empty()
    } else {
        let acc = tally(entries.drop_last());
        let x = entries.last();
        if acc.len() > 0 && x.1 > acc[0].1 {
            seq![x]
        } else if acc.len() == 0 || x.1 == acc[0].1 {
            acc.push(x)
        } else {
            acc
        }
    }
}

/// The highest count among the entries (0 when there are none).
pub open spec fn max_count(entries: Seq<(usize, usize)>) -> nat
    decreases entries.len(),
{
    if entries.len() == 0 {
        0
    } else {
        let m = max_count(entries.drop_last());
        if entries.last().1 > m {
            entries.last().1 as nat
        } else {
            m
        }
    }
}

/// The entries whose count is `c`, in order.
pub open spec fn with_count(entries: Seq<(usize, usize)>, c: nat) -> Seq<(usize, usize)>
    decreases entries.len(),
{
    if entries.len() == 0 {
        Seq::empty()
    } else {
        let rest = with_count(entries.drop_last(), c);
        if entries.last().1 == c {
            rest.push(entries.last())
        } else {
            rest
        }
    }
}

/// (effect, votes) for each offered effect, in rotation order.
pub open spec fn effect_entries(m: VotingView) -> Seq<(usize, usize)> {
    Seq::new(
        VOTING_ROTATION_NUM_EFFECTS as nat,
        |s: int| (m.offered(s), m.votes[m.offered(s) as int].votes[0]),
    )
}

/// (player slot, votes) for each slot below `n` that has a fighter.
pub open spec fn present_entries(v: VoteView, n: nat) -> Seq<(usize, usize)>
    decreases n,
{
    if n == 0 {
        Seq::empty()
    } else {
        let rest = present_entries(v, (n - 1) as nat);
        if v.players[n - 1] is Some {
            rest.push(((n - 1) as usize, v.votes[n - 1]))
        } else {
            rest
        }
    }
}

/// The entries the chat voted on this period.
pub open spec fn vote_entries(m: VotingView) -> Seq<(usize, usize)> {
    match m.mode {
        GameModes::ChooseEffect => effect_entries(m),
        GameModes::ChoosePlayer => present_entries(m.votes[m.offered(0) as int], MAX_PLAYERS as nat),
    }
}

/// The entries tied for the most votes: effects, or player slots.
pub open spec fn vote_candidates(m: VotingView) -> Seq<(usize, usize)> {
    tally(vote_entries(m))
}

/// The state after the period's result: candidate `tie_draw` wins, the new
/// rotation is drawn from `draws`, and a new period begins at `now`. `None`
/// when the draws do not suffice. Returns the winner: an effect, or the
/// player slot that receives the offered effect.
pub open spec fn spec_conclude_voting_period(
    m: VotingView,
    tie_draw: int,
    draws: Seq<usize>,
    now: u32,
) -> Option<(VotingView, usize)> {
    let w = vote_candidates(m)[tie_draw].0;
    let m1 = match m.mode {
        GameModes::ChooseEffect => VotingView {
            votes: m.votes.update(w as int, enable(m.votes[w as int])),
            ..m
        },
        GameModes::ChoosePlayer => {
            let e = m.offered(0) as int;
            VotingView {
                votes: m.votes.update(e, enable(m.votes[e])),
                player_effect_number: Some(w),
                ..m
            }
        },
    };
    match fill_rotation(m1.rotation, 0, draws) {
        Some(rot) => Some(
            (
                VotingView {
                    rotation: rot,
                    voter_names: Seq::empty(),
                    voting_period_begin: now,
                    ..m1
                },
                w,
            ),
        ),
        None => None,
    }
}

// ---------------------------------------------------------------------------
// The highest vote wins
// ---------------------------------------------------------------------------

proof fn lemma_max_count_bound(e: Seq<(usize, usize)>)
    ensures
        forall|i: int| 0 <= i < e.len() ==> #[trigger] e[i].1 <= max_count(e),
        e.len() > 0 ==> exists|i: int| 0 <= i < e.len() && #[trigger] e[i].1 == max_count(e),
    decreases e.len(),
{
    if e.len() > 0 {
        let e2 = e.drop_last();
        lemma_max_count_bound(e2);
        assert forall|i: int| 0 <= i < e.len() implies #[trigger] e[i].1 <= max_count(e) by {
            if i < e2.len() {
                assert(e[i] == e2[i]);
            }
        }
        if e.last().1 > max_count(e2) {
            assert(e[e.len() - 1].1 == max_count(e));
        } else if e2.len() > 0 {
            let i = choose|i: int| 0 <= i < e2.len() && #[trigger] e2[i].1 == max_count(e2);
            assert(e[i] == e2[i]);
        } else {
            assert(e[0].1 == max_count(e));
        }
    }
}

proof fn lemma_with_count_props(e: Seq<(usize, usize)>, c: nat)
    ensures
        forall|i: int|
            0 <= i < with_count(e, c).len() ==> (#[trigger] with_count(e, c)[i]).1 == c,
        forall|i: int|
            0 <= i < with_count(e, c).len() ==> exists|j: int|
                0 <= j < e.len() && e[j] == #[trigger] with_count(e, c)[i],
        (exists|j: int| 0 <= j < e.len() && #[trigger] e[j].1 == c) ==> with_count(e, c).len()
            > 0,
        (forall|j: int| 0 <= j < e.len() ==> #[trigger] e[j].1 != c) ==> with_count(e, c).len()
            == 0,
    decreases e.len(),
{
    if e.len() > 0 {
        let e2 = e.drop_last();
        lemma_with_count_props(e2, c);
        let w = with_count(e, c);
        let w2 = with_count(e2, c);
        assert forall|i: int| 0 <= i < w.len() implies exists|j: int|
            0 <= j < e.len() && e[j] == #[trigger] w[i] by {
            if i < w2.len() {
                let j = choose|j: int| 0 <= j < e2.len() && e2[j] == #[trigger] w2[i];
                assert(e[j] == e2[j]);
            } else {
                assert(w[i] == e[e.len() - 1]);
            }
        }
        if exists|j: int| 0 <= j < e.len() && #[trigger] e[j].1 == c {
            let j = choose|j: int| 0 <= j < e.len() && #[trigger] e[j].1 == c;
            if j < e2.len() {
                assert(e2[j] == e[j]);
            }
        }
        if forall|j: int| 0 <= j < e.len() ==> #[trigger] e[j].1 != c {
            assert forall|j: int| 0 <= j < e2.len() implies #[trigger] e2[j].1 != c by {
                assert(e2[j] == e[j]);
            }
            assert(e[e.len() - 1].1 != c);
        }
    }
}

/// The scan keeps exactly the entries with the highest count, in order.
pub proof fn lemma_tally_is_max(e: Seq<(usize, usize)>)
    ensures
        tally(e) == with_count(e, max_count(e)),
    decreases e.len(),
{
    if e.len() > 0 {
        let e2 = e.drop_last();
        let x = e.last();
        let m2 = max_count(e2);
        lemma_tally_is_max(e2);
        lemma_max_count_bound(e2);
        lemma_with_count_props(e2, m2);
        if e2.len() == 0 {
            assert(with_count(e2, x.1 as nat) =~= Seq::<(usize, usize)>::empty());
            assert(tally(e) =~= seq![x]);
            assert(with_count(e, max_count(e)) =~= seq![x]);
        } else if x.1 > m2 {
            lemma_with_count_props(e2, x.1 as nat);
            assert(with_count(e, max_count(e)) =~= seq![x]);
            assert(tally(e) =~= seq![x]);
        } else {
            assert(max_count(e) == m2);
        }
    }
}

/// The candidates of a period are exactly the entries with the most votes,
/// in order: every candidate has the highest count, every entry with the
/// highest count is a candidate, and there is one whenever anything was
/// voted on.
pub proof fn lemma_vote_candidates_are_highest(m: VotingView)
    ensures
        vote_candidates(m) == with_count(vote_entries(m), max_count(vote_entries(m))),
        forall|i: int|
            0 <= i < vote_candidates(m).len() ==> (#[trigger] vote_candidates(m)[i]).1 == max_count(
                vote_entries(m),
            ),
        forall|j: int|
            0 <= j < vote_entries(m).len() ==> #[trigger] vote_entries(m)[j].1 <= max_count(
                vote_entries(m),
            ),
        vote_entries(m).len() > 0 ==> vote_candidates(m).len() > 0,
        forall|i: int|
            0 <= i < vote_candidates(m).len() ==> exists|j: int|
                0 <= j < vote_entries(m).len() && vote_entries(m)[j] == #[trigger] vote_candidates(
                    m,
                )[i],
{
    let e = vote_entries(m);
    lemma_tally_is_max(e);
    lemma_max_count_bound(e);
    lemma_with_count_props(e, max_count(e));
}

proof fn lemma_present_entries_slots(v: VoteView, n: nat)
    ensures
        present_entries(v, n).len() <= n,
        forall|i: int| 0 <= i < present_entries(v, n).len() ==> (#[trigger] present_entries(v, n)[i]).0 < n,
    decreases n,
{
    if n > 0 {
        lemma_present_entries_slots(v, (n - 1) as nat);
    }
}

// ---------------------------------------------------------------------------
// Drawing the rotation
// ---------------------------------------------------------------------------

/// Fills the rotation from slot `slot` on with random draws: each slot takes
/// the first draw that names no effect currently in the rotation. `None`
/// when the draws run out first.
pub open spec fn fill_rotation(rot: Seq<Option<usize>>, slot: int, draws: Seq<usize>) -> Option<
    Seq<Option<usize>>,
>
    decreases draws.len(),
{
    if slot >= rot.len() {
        Some(rot)
    } else if draws.len() == 0 {
        None
    } else if !rot.contains(Some(draws[0])) {
        fill_rotation(rot.update(slot, Some(draws[0])), slot + 1, draws.drop_first())
    } else {
        fill_rotation(rot, slot, draws.drop_first())
    }
}

/// Every draw names an effect.
pub open spec fn draws_valid(draws: Seq<usize>) -> bool {
    forall|i: int| 0 <= i < draws.len() ==> draws[i] < NUM_EFFECTS
}

proof fn lemma_fill_keeps_prefix(rot: Seq<Option<usize>>, slot: int, draws: Seq<usize>)
    requires
        0 <= slot,
    ensures
        fill_rotation(rot, slot, draws) matches Some(r) ==> {
            &&& r.len() == rot.len()
            &&& forall|s: int| 0 <= s < slot ==> r[s] == rot[s]
        },
    decreases draws.len(),
{
    if slot >= rot.len() {
    } else if draws.len() == 0 {
    } else if !rot.contains(Some(draws[0])) {
        lemma_fill_keeps_prefix(rot.update(slot, Some(draws[0])), slot + 1, draws.drop_first());
    } else {
        lemma_fill_keeps_prefix(rot, slot, draws.drop_first());
    }
}

/// A filled rotation offers different valid effects in every slot, and no
/// slot offers an effect that the rotation held, at that slot or a later
/// one, before the draw.
pub proof fn lemma_fill_rotation(rot: Seq<Option<usize>>, slot: int, draws: Seq<usize>)
    requires
        0 <= slot <= rot.len(),
        rotation_distinct(rot),
        forall|s: int| 0 <= s < slot ==> rot[s] is Some,
        draws_valid(draws),
    ensures
        fill_rotation(rot, slot, draws) matches Some(r) ==> {
            &&& r.len() == rot.len()
            &&& rotation_full(r)
            &&& forall|s: int, t: int| slot <= s <= t < rot.len() ==> r[s] != rot[t]
        },
    decreases draws.len(),
{
    lemma_fill_keeps_prefix(rot, slot, draws);
    if slot >= rot.len() {
    } else if draws.len() == 0 {
    } else {
        assert(draws_valid(draws.drop_first()));
        let d = draws[0];
        if !rot.contains(Some(d)) {
            let r2 = rot.update(slot, Some(d));
            assert forall|s: int, t: int| 0 <= s < t < r2.len() && r2[s] is Some implies r2[s]
                != r2[t] by {
                if s == slot {
                    if r2[t] == r2[s] {
                        assert(rot[t] == r2[t]);
                        assert(rot.contains(rot[t]));
                    }
                } else if t == slot {
                    if r2[t] == r2[s] {
                        assert(rot[s] == r2[s]);
                        assert(rot.contains(rot[s]));
                    }
                }
            }
            lemma_fill_rotation(r2, slot + 1, draws.drop_first());
            lemma_fill_keeps_prefix(r2, slot + 1, draws.drop_first());
            if let Some(r) = fill_rotation(r2, slot + 1, draws.drop_first()) {
                assert forall|s: int, t: int| slot <= s <= t < rot.len() implies r[s] != rot[t] by {
                    if s == slot {
                        assert(r[s] == r2[s]);
                        if r[s] == rot[t] {
                            assert(rot.contains(rot[t]));
                        }
                    } else {
                        assert(r2[t] == rot[t]);
                    }
                }
            }
        } else {
            lemma_fill_rotation(rot, slot, draws.drop_first());
        }
    }
}

// ---------------------------------------------------------------------------
// Sequence views
// ---------------------------------------------------------------------------

proof fn lemma_vote_views_update(s: Seq<Vote>, i: int, v: Vote)
    requires
        0 <= i < s.len(),
    ensures
        vote_views(s.update(i, v)) =~= vote_views(s).update(i, v@),
{
}

proof fn lemma_name_views_push(s: Seq<String>, n: String)
    ensures
        name_views(s.push(n)) =~= name_views(s).push(n@),
{
}

/// One fresh record per effect.
fn fresh_vote_table() -> (v: Vec<Vote>)
    ensures
        vote_views(v@) =~= fresh_votes(),
{
    let mut v: Vec<Vote> = Vec::new();
    let mut i: usize = 0;
    while i < NUM_EFFECTS
        invariant
            i <= NUM_EFFECTS,
            v@.len() == i,
            forall|k: int| 0 <= k < i ==> (#[trigger] v@[k])@ == fresh_vote(),
        decreases NUM_EFFECTS - i,
    {
        v.push(Vote::new());
        i = i + 1;
    }
    v
}

/// `v` switched off, with no votes and off for every fighter (see
/// [`reset_record`]).
fn reset_vote(v: Vote) -> (r: Vote)
    requires
        v@.wf(),
    ensures
        r@ == reset_record(v@),
        r@.wf(),
{
    let mut players = v.players;
    let mut k: usize = 0;
    while k < MAX_PLAYERS
        invariant
            k <= MAX_PLAYERS,
            players@.len() == MAX_PLAYERS,
            v.players@.len() == MAX_PLAYERS,
            forall|j: int| 0 <= j < k ==> players@[j] == reset_slot(v.players@[j]),
            forall|j: int| k <= j < MAX_PLAYERS ==> players@[j] == v.players@[j],
        decreases MAX_PLAYERS - k,
    {
        if players[k].is_some() {
            players[k] = Some(false);
        }
        k = k + 1;
    }
    let r = Vote {
        votes: [0, 0, 0, 0, 0, 0, 0, 0],
        is_enabled: false,
        players,
        activate_times: v.activate_times,
    };
    assert(r.votes@ =~= reset_record(v@).votes);
    assert(r.players@ =~= reset_record(v@).players);
    r
}

/// Whether `effect` is offered in the rotation.
fn rotation_contains(rot: &[Option<usize>; 3], effect: usize) -> (r: bool)
    ensures
        r == rot@.contains(Some(effect)),
{
    let mut k: usize = 0;
    while k < 3
        invariant
            k <= 3,
            rot@.len() == 3,
            forall|j: int| 0 <= j < k ==> rot@[j] != Some(effect),
        decreases 3 - k,
    {
        match rot[k] {
            Some(e) => {
                if e == effect {
                    assert(rot@[k as int] == Some(effect));
                    return true;
                }
            },
            None => {},
        }
        k = k + 1;
    }
    false
}

/// The rotation drawn from `draws`, if they suffice.
pub(crate) fn fill_rotation_exec(rot: [Option<usize>; 3], draws: &Vec<usize>) -> (r: Option<
    [Option<usize>; 3],
>)
    ensures
        match r {
            Some(a) => fill_rotation(rot@, 0, draws@) == Some(a@),
            None => fill_rotation(rot@, 0, draws@) is None,
        },
{
    let mut cur = rot;
    let mut slot: usize = 0;
    let mut i: usize = 0;
    assert(draws@.skip(0) =~= draws@);
    while i < draws.len()
        invariant
            i <= draws@.len(),
            slot <= 3,
            cur@.len() == 3,
            fill_rotation(rot@, 0, draws@) == fill_rotation(cur@, slot as int, draws@.skip(i as int)),
        decreases draws@.len() - i,
    {
        if slot >= 3 {
            return Some(cur);
        }
        let d = draws[i];
        assert(draws@.skip(i as int)[0] == d);
        assert(draws@.skip(i as int).drop_first() =~= draws@.skip(i + 1));
        if !rotation_contains(&cur, d) {
            cur[slot] = Some(d);
            slot = slot + 1;
        }
        i = i + 1;
    }
    if slot >= 3 {
        Some(cur)
    } else {
        None
    }
}

impl Voting {
    /// The state before the first match: no votes, nothing offered, no
    /// voting period running.
    pub fn new(config: &Config) -> (v: Voting)
        ensures
            v@.wf(),
            v@.mode == config.mode,
            v@.voting_interval == config.voting_interval,
            v@.votes.len() == 0,
            v@.voting_period_begin == 0,
            rotation_empty(v@.rotation),
            v@.voter_names.len() == 0,
            v@.player_effect_number is None,
            !v@.is_players_populated,
            !v@.last_ready_go,
            forall|e: int| 0 <= e < NUM_EFFECTS ==> v@.effect_clocks[e] == 0,
            v@.debug_effect_index == 0,
    {
        Voting {
            mode: config.mode,
            voting_interval: config.voting_interval,
            votes: Vec::new(),
            voting_period_begin: 0,
            rotation: [None, None, None],
            voter_names: Vec::new(),
            player_effect_number: None,
            is_players_populated: false,
            last_ready_go: false,
            effect_clocks: [0, 0, 0, 0, 0, 0, 0, 0, 0, 0, 0, 0, 0],
            debug_effect_index: 0,
        }
    }

    /// Resets the votes (see [`VotingView::init_votes`]).
    pub fn init_votes(&mut self)
        requires
            old(self)@.wf(),
        ensures
            final(self)@ == old(self)@.init_votes(),
            final(self)@.wf(),
    {
        match self.mode {
            GameModes::ChooseEffect => {
                self.votes = fresh_vote_table();
            },
            GameModes::ChoosePlayer => {
                if self.votes.len() == 0 {
                    self.votes = fresh_vote_table();
                } else {
                    let ghost m = self@;
                    let n = self.votes.len();
                    let mut e: usize = 0;
                    assert(self@.votes =~= Seq::new(
                        n as nat,
                        |j: int|
                            if j < 0 {
                                reset_record(m.votes[j])
                            } else {
                                m.votes[j]
                            },
                    ));
                    while e < n
                        invariant
                            m == old(self)@,
                            m.wf(),
                            n == m.votes.len(),
                            self.votes@.len() == n,
                            e <= n,
                            self@ == (VotingView {
                                votes: Seq::new(
                                    n as nat,
                                    |j: int|
                                        if j < e {
                                            reset_record(m.votes[j])
                                        } else {
                                            m.votes[j]
                                        },
                                ),
                                ..m
                            }),
                        decreases n - e,
                    {
                        let v = reset_vote(self.votes[e]);
                        assert(self@.votes[e as int] == m.votes[e as int]);
                        self.set_vote(e, v);
                        e = e + 1;
                        assert(self@.votes =~= Seq::new(
                            n as nat,
                            |j: int|
                                if j < e {
                                    reset_record(m.votes[j])
                                } else {
                                    m.votes[j]
                                },
                        ));
                    }
                    self.player_effect_number = None;
                    assert(self@.votes =~= m.votes.map_values(|v: VoteView| reset_record(v)));
                }
            },
        }
        assert(self@ =~= old(self)@.init_votes());
    }

    /// Switches `effect` off once it has run out (see
    /// [`VotingView::expire`]).
    pub(crate) fn expire(&mut self, effect: usize)
        requires
            old(self)@.wf(),
            effect < NUM_EFFECTS,
            old(self)@.votes.len() == NUM_EFFECTS,
        ensures
            final(self)@ == old(self)@.expire(effect as int),
            final(self)@.wf(),
    {
        match self.mode {
            GameModes::ChooseEffect => {
                let ghost m = self@;
                let n = self.votes.len();
                let mut j: usize = 0;
                assert(self@.votes =~= Seq::new(
                    n as nat,
                    |x: int|
                        if x < 0 {
                            VoteView {
                                is_enabled: m.votes[x].is_enabled && x != effect,
                                ..clear_counts(m.votes[x])
                            }
                        } else {
                            m.votes[x]
                        },
                ));
                while j < n
                    invariant
                        m == old(self)@,
                        m.wf(),
                        m.mode == GameModes::ChooseEffect,
                        n == m.votes.len(),
                        self.votes@.len() == n,
                        effect < n,
                        j <= n,
                        self@ == (VotingView {
                            votes: Seq::new(
                                n as nat,
                                |x: int|
                                    if x < j {
                                        VoteView {
                                            is_enabled: m.votes[x].is_enabled && x != effect,
                                            ..clear_counts(m.votes[x])
                                        }
                                    } else {
                                        m.votes[x]
                                    },
                            ),
                            ..m
                        }),
                    decreases n - j,
                {
                    assert(self@.votes[j as int] == m.votes[j as int]);
                    let v = self.votes[j];
                    assert(v@ == self@.votes[j as int]);
                    let w = Vote {
                        votes: [0, 0, 0, 0, 0, 0, 0, 0],
                        is_enabled: v.is_enabled && j != effect,
                        players: v.players,
                        activate_times: v.activate_times,
                    };
                    assert(w@.votes =~= clear_counts(v@).votes);
                    self.set_vote(j, w);
                    j = j + 1;
                    assert(self@.votes =~= Seq::new(
                        n as nat,
                        |x: int|
                            if x < j {
                                VoteView {
                                    is_enabled: m.votes[x].is_enabled && x != effect,
                                    ..clear_counts(m.votes[x])
                                }
                            } else {
                                m.votes[x]
                            },
                    ));
                }
                assert forall|x: int| 0 <= x < n implies #[trigger] self@.votes[x] == m.expire(
                    effect as int,
                ).votes[x] by {
                    if x == effect {
                        assert(self@.votes[x].is_enabled == false);
                    }
                }
                assert(self@.votes =~= m.expire(effect as int).votes);
                assert(self@ =~= m.expire(effect as int));
            },
            GameModes::ChoosePlayer => {
                self.init_votes();
            },
        }
    }

    /// Whether `draws` suffice to draw a new rotation.
    pub fn rotation_draws_suffice(&self, draws: &Vec<usize>) -> (r: bool)
        ensures
            r == fill_rotation(self@.rotation, 0, draws@) is Some,
    {
        fill_rotation_exec(self.rotation, draws).is_some()
    }

    /// Draws a new rotation from `draws` (each slot takes the first draw not
    /// already offered) and opens voting to every chatter again. Returns
    /// false, changing nothing, when the draws run out first.
    pub fn randomize_voting_rotation(&mut self, draws: &Vec<usize>) -> (r: bool)
        requires
            old(self)@.wf(),
            draws_valid(draws@),
        ensures
            final(self)@.wf(),
            match fill_rotation(old(self)@.rotation, 0, draws@) {
                Some(rot) => r && final(self)@ == (VotingView {
                    rotation: rot,
                    voter_names: Seq::empty(),
                    ..old(self)@
                }),
                None => !r && final(self)@ == old(self)@,
            },
    {
        match fill_rotation_exec(self.rotation, draws) {
            Some(rot) => {
                proof {
                    lemma_fill_rotation(self@.rotation, 0, draws@);
                }
                self.rotation = rot;
                self.voter_names = Vec::new();
                assert(name_views(self.voter_names@) =~= Seq::<Seq<char>>::empty());
                true
            },
            None => false,
        }
    }
}

/// What a chat message did to the vote.
#[derive(Clone, Copy, Debug)]
pub struct VoteUpdate {
    /// The message was counted as a vote.
    pub vote_counted: bool,
    /// The voting period is over; its result is due.
    pub period_over: bool,
}

fn tally_exec(entries: &Vec<(usize, usize)>) -> (r: Vec<(usize, usize)>)
    ensures
        r@ == tally(entries@),
{
    let mut acc: Vec<(usize, usize)> = Vec::new();
    let mut i: usize = 0;
    assert(entries@.take(0) =~= Seq::<(usize, usize)>::empty());
    while i < entries.len()
        invariant
            i <= entries@.len(),
            acc@ == tally(entries@.take(i as int)),
        decreases entries@.len() - i,
    {
        let x = entries[i];
        proof {
            let t = entries@.take(i + 1);
            assert(t.drop_last() =~= entries@.take(i as int));
            assert(t.last() == x);
        }
        if acc.len() > 0 && x.1 > acc[0].1 {
            acc = vec![x];
            assert(acc@ =~= seq![x]);
        } else if acc.len() == 0 || x.1 == acc[0].1 {
            acc.push(x);
        }
        i = i + 1;
    }
    assert(entries@.take(entries@.len() as int) =~= entries@);
    acc
}

impl Voting {
    pub(crate) fn set_vote(&mut self, e: usize, v: Vote)
        requires
            e < old(self).votes@.len(),
        ensures
            final(self)@ == (VotingView { votes: old(self)@.votes.update(e as int, v@), ..old(self)@ }),
    {
        proof {
            lemma_vote_views_update(self.votes@, e as int, v);
        }
        self.votes.set(e, v);
    }

    /// Whether `name` has voted in this period.
    pub fn has_voted(&self, name: &String) -> (r: bool)
        ensures
            r == self@.voter_names.contains(name@),
    {
        let mut k: usize = 0;
        while k < self.voter_names.len()
            invariant
                k <= self.voter_names@.len(),
                forall|j: int| 0 <= j < k ==> self@.voter_names[j] != name@,
            decreases self.voter_names@.len() - k,
        {
            if self.voter_names[k] == *name {
                assert(self@.voter_names[k as int] == name@);
                return true;
            }
            k = k + 1;
        }
        false
    }

    /// Whether every vote counter can take one more vote.
    pub fn counts_below_max(&self) -> (r: bool)
        requires
            self@.wf(),
        ensures
            r == counts_below_max(self@),
    {
        let mut e: usize = 0;
        while e < self.votes.len()
            invariant
                self@.wf(),
                e <= self.votes@.len(),
                forall|f: int, k: int|
                    0 <= f < e && 0 <= k < MAX_PLAYERS ==> #[trigger] self@.votes[f].votes[k]
                        < usize::MAX,
            decreases self.votes@.len() - e,
        {
            let v = self.votes[e];
            let mut k: usize = 0;
            while k < MAX_PLAYERS
                invariant
                    self@.wf(),
                    e < self.votes@.len(),
                    v@ == self@.votes[e as int],
                    k <= MAX_PLAYERS,
                    forall|f: int, j: int|
                        0 <= f < e && 0 <= j < MAX_PLAYERS ==> #[trigger] self@.votes[f].votes[j]
                            < usize::MAX,
                    forall|j: int| 0 <= j < k ==> #[trigger] self@.votes[e as int].votes[j] < usize::MAX,
                decreases MAX_PLAYERS - k,
            {
                if v.votes[k] == usize::MAX {
                    return false;
                }
                k = k + 1;
            }
            e = e + 1;
        }
        true
    }

    fn cast_effect_vote(&mut self, vote: Option<usize>, chatter_name: String) -> (r: bool)
        requires
            old(self)@.wf(),
            old(self)@.voting_period_begin != 0,
            counts_below_max(old(self)@),
        ensures
            (final(self)@, r) == effect_vote_cast(old(self)@, vote, chatter_name@),
    {
        match vote {
            Some(n) => {
                if 1 <= n && n <= VOTING_ROTATION_NUM_EFFECTS {
                    match self.rotation[n - 1] {
                        Some(e) => {
                            if self.has_voted(&chatter_name) {
                                return false;
                            }
                            let mut v = self.votes[e];
                            assert(v@ == self@.votes[e as int]);
                            assert(self@.votes[e as int].votes[0] < usize::MAX);
                            v.votes[0] = v.votes[0] + 1;
                            assert(v@ == bump(old(self)@.votes[e as int], 0));
                            self.set_vote(e, v);
                            proof {
                                lemma_name_views_push(self.voter_names@, chatter_name);
                            }
                            self.voter_names.push(chatter_name);
                            true
                        },
                        None => false,
                    }
                } else {
                    false
                }
            },
            None => false,
        }
    }

    fn cast_player_vote(&mut self, vote: Option<usize>, chatter_name: String, total_fighters: usize) -> (r: bool)
        requires
            old(self)@.wf(),
            old(self)@.voting_period_begin != 0,
            counts_below_max(old(self)@),
            total_fighters <= MAX_PLAYERS,
        ensures
            (final(self)@, r) == player_vote_cast(old(self)@, vote, chatter_name@, total_fighters),
    {
        match vote {
            Some(n) => {
                if 1 <= n && n <= total_fighters {
                    match self.rotation[0] {
                        Some(e) => {
                            if self.has_voted(&chatter_name) {
                                return false;
                            }
                            let mut v = self.votes[e];
                            assert(v@ == self@.votes[e as int]);
                            assert(self@.votes[e as int].votes[n - 1] < usize::MAX);
                            v.votes[n - 1] = v.votes[n - 1] + 1;
                            assert(v@ == bump(old(self)@.votes[e as int], n - 1));
                            self.set_vote(e, v);
                            proof {
                                lemma_name_views_push(self.voter_names@, chatter_name);
                            }
                            self.voter_names.push(chatter_name);
                            true
                        },
                        None => false,
                    }
                } else {
                    false
                }
            },
            None => false,
        }
    }

    /// Counts a chat message already read as `vote` (see
    /// [`crate::vote_text::parse_vote`]) from `chatter_name`, and reports
    /// whether the voting period is over at match clock reading `now`.
    /// `total_fighters` is the number of fighters in the match.
    pub fn update_votes_parsed(
        &mut self,
        vote: Option<usize>,
        chatter_name: String,
        is_ready_go: bool,
        total_fighters: usize,
        now: u32,
    ) -> (r: VoteUpdate)
        requires
            old(self)@.wf(),
            update_votes_defined(old(self)@, is_ready_go, total_fighters),
        ensures
            final(self)@.wf(),
            (final(self)@, r.vote_counted) == spec_update_votes(
                old(self)@,
                vote,
                chatter_name@,
                is_ready_go,
                total_fighters,
            ),
            r.period_over == spec_period_over(old(self)@, is_ready_go, now),
    {
        if !(self.voting_period_begin != 0 && is_ready_go) {
            return VoteUpdate { vote_counted: false, period_over: false };
        }
        let counted = match self.mode {
            GameModes::ChooseEffect => self.cast_effect_vote(vote, chatter_name),
            GameModes::ChoosePlayer => {
                if !self.is_players_populated {
                    return VoteUpdate { vote_counted: false, period_over: false };
                }
                self.cast_player_vote(vote, chatter_name, total_fighters)
            },
        };
        let over = is_time_range(self.voting_period_begin, self.voting_interval, now);
        VoteUpdate { vote_counted: counted, period_over: over }
    }

    /// Handles a chat message from `chatter_name`: when voting is open, a
    /// message that reads as a valid number counts as one vote per chatter
    /// and period. Also reports whether the voting period is over at match
    /// clock reading `now`.
    pub fn update_votes(
        &mut self,
        chat_msg: &str,
        chatter_name: String,
        is_ready_go: bool,
        total_fighters: usize,
        now: u32,
    ) -> (r: VoteUpdate)
        requires
            old(self)@.wf(),
            update_votes_defined(old(self)@, is_ready_go, total_fighters),
        ensures
            final(self)@.wf(),
            (final(self)@, r.vote_counted) == spec_update_votes(
                old(self)@,
                spec_parse_vote(lowercase_of(chat_msg@)),
                chatter_name@,
                is_ready_go,
                total_fighters,
            ),
            is_ascii_text(chat_msg@) ==> (final(self)@, r.vote_counted) == spec_update_votes(
                old(self)@,
                spec_parse_vote(ascii_lower(chat_msg@)),
                chatter_name@,
                is_ready_go,
                total_fighters,
            ),
            r.period_over == spec_period_over(old(self)@, is_ready_go, now),
    {
        let vote = parse_vote(chat_msg);
        self.update_votes_parsed(vote, chatter_name, is_ready_go, total_fighters, now)
    }

    pub(crate) fn vote_entries(&self) -> (r: Vec<(usize, usize)>)
        requires
            self@.wf(),
            rotation_full(self@.rotation),
            self@.votes.len() == NUM_EFFECTS,
        ensures
            r@ == vote_entries(self@),
    {
        let mut r: Vec<(usize, usize)> = Vec::new();
        match self.mode {
            GameModes::ChooseEffect => {
                let mut s: usize = 0;
                while s < VOTING_ROTATION_NUM_EFFECTS
                    invariant
                        self@.wf(),
                        rotation_full(self@.rotation),
                        self@.votes.len() == NUM_EFFECTS,
                        self@.mode == GameModes::ChooseEffect,
                        s <= VOTING_ROTATION_NUM_EFFECTS,
                        r@ =~= effect_entries(self@).take(s as int),
                    decreases VOTING_ROTATION_NUM_EFFECTS - s,
                {
                    assert(self@.rotation[s as int] is Some);
                    let e = match self.rotation[s] {
                        Some(e) => e,
                        None => 0,
                    };
                    r.push((e, self.votes[e].votes[0]));
                    s = s + 1;
                    assert(r@ =~= effect_entries(self@).take(s as int));
                }
                assert(effect_entries(self@).take(3) =~= effect_entries(self@));
            },
            GameModes::ChoosePlayer => {
                assert(self@.rotation[0] is Some);
                let e = match self.rotation[0] {
                    Some(e) => e,
                    None => 0,
                };
                let v = self.votes[e];
                let mut k: usize = 0;
                while k < MAX_PLAYERS
                    invariant
                        self@.wf(),
                        e < self.votes@.len(),
                        v@ == self@.votes[e as int],
                        k <= MAX_PLAYERS,
                        r@ == present_entries(v@, k as nat),
                    decreases MAX_PLAYERS - k,
                {
                    if v.players[k].is_some() {
                        r.push((k, v.votes[k]));
                    }
                    k = k + 1;
                }
            },
        }
        r
    }

    /// The entries tied for the most votes this period, in order: (effect,
    /// votes) when the chat picks effects, (player slot, votes) when it
    /// picks a player.
    pub fn vote_candidates(&self) -> (r: Vec<(usize, usize)>)
        requires
            self@.wf(),
            rotation_full(self@.rotation),
            self@.votes.len() == NUM_EFFECTS,
        ensures
            r@ == vote_candidates(self@),
    {
        let entries = self.vote_entries();
        tally_exec(&entries)
    }

    /// Ends the voting period: candidate `tie_draw` (a random index among
    /// [`Self::vote_candidates`]) wins and is switched on, a new rotation is
    /// drawn from `draws`, voting reopens to every chatter and a new period
    /// begins at `now`. Returns the winner, or `None` (changing nothing) when
    /// the draws run out.
    pub fn conclude_voting_period(&mut self, tie_draw: usize, draws: &Vec<usize>, now: u32) -> (r:
        Option<usize>)
        requires
            old(self)@.wf(),
            old(self)@.voting_period_begin != 0,
            tie_draw < vote_candidates(old(self)@).len(),
            draws_valid(draws@),
        ensures
            final(self)@.wf(),
            match spec_conclude_voting_period(old(self)@, tie_draw as int, draws@, now) {
                Some((m, w)) => r == Some(w) && final(self)@ == m,
                None => r is None && final(self)@ == old(self)@,
            },
    {
        let cands = self.vote_candidates();
        let w = cands[tie_draw].0;
        let rot = match fill_rotation_exec(self.rotation, draws) {
            Some(rot) => rot,
            None => {
                return None;
            },
        };
        proof {
            lemma_fill_rotation(self@.rotation, 0, draws@);
            lemma_vote_candidates_are_highest(self@);
            let j = choose|j: int|
                0 <= j < vote_entries(self@).len() && vote_entries(self@)[j]
                    == #[trigger] vote_candidates(self@)[tie_draw as int];
            if self@.mode == GameModes::ChoosePlayer {
                lemma_present_entries_slots(
                    self@.votes[self@.offered(0) as int],
                    MAX_PLAYERS as nat,
                );
            }
            assert(vote_entries(self@)[j].0 == w);
        }
        match self.mode {
            GameModes::ChooseEffect => {
                let mut v = self.votes[w];
                v.is_enabled = true;
                self.set_vote(w, v);
            },
            GameModes::ChoosePlayer => {
                let e = match self.rotation[0] {
                    Some(e) => e,
                    None => 0,
                };
                let mut v = self.votes[e];
                v.is_enabled = true;
                self.set_vote(e, v);
                self.player_effect_number = Some(w);
            },
        }
        self.rotation = rot;
        self.voter_names = Vec::new();
        assert(name_views(self.voter_names@) =~= Seq::<Seq<char>>::empty());
        self.voting_period_begin = now;
        Some(w)
    }
}

// ---------------------------------------------------------------------------
// Recording the fighters
// ---------------------------------------------------------------------------

/// Number of player slots that hold a fighter.
pub open spec fn count_present(players: Seq<Option<bool>>) -> nat
    decreases players.len(),
{
    if players.len() == 0 {
        0
    } else {
        count_present(players.drop_last()) + if players.last() is Some {
            1nat
        } else {
            0nat
        }
    }
}

/// The first record, from index `i` on, that already holds at least
/// `total` fighters (the table length when there is none).
pub open spec fn first_reaching(votes: Seq<VoteView>, total: nat, i: int) -> int
    decreases votes.len() - i,
{
    if i < 0 || i >= votes.len() {
        votes.len() as int
    } else if count_present(votes[i].players) >= total {
        i
    } else {
        first_reaching(votes, total, i + 1)
    }
}

proof fn lemma_first_reaching_bounds(votes: Seq<VoteView>, total: nat, i: int)
    requires
        0 <= i <= votes.len(),
    ensures
        i <= first_reaching(votes, total, i) <= votes.len(),
    decreases votes.len() - i,
{
    if i < votes.len() && count_present(votes[i].players) < total {
        lemma_first_reaching_bounds(votes, total, i + 1);
    }
}

/// `v` with a (not yet affected) fighter in slot `id`.
pub open spec fn mark_present(v: VoteView, id: int) -> VoteView {
    VoteView { players: v.players.update(id, Some(false)), ..v }
}

/// Recording the fighter in slot `id` while the chat picks players: the
/// records are walked in order; the walk stops at the first one that already
/// holds `total_fighters` fighters, which completes the recording, and every
/// record before it gets slot `id` marked as present.
pub open spec fn spec_get_players(m: VotingView, id: int, total_fighters: nat) -> (
    VotingView,
    bool,
) {
    if !m.is_players_populated && m.voting_period_begin != 0 {
        let k = first_reaching(m.votes, total_fighters, 0);
        (
            VotingView {
                votes: Seq::new(
                    m.votes.len(),
                    |j: int|
                        if j < k {
                            mark_present(m.votes[j], id)
                        } else {
                            m.votes[j]
                        },
                ),
                is_players_populated: k < m.votes.len(),
                ..m
            },
            k < m.votes.len(),
        )
    } else {
        (m, false)
    }
}

fn count_present_exec(players: &[Option<bool>; 8]) -> (r: usize)
    ensures
        r == count_present(players@),
        r <= MAX_PLAYERS,
{
    let mut k: usize = 0;
    let mut c: usize = 0;
    assert(players@.take(0) =~= Seq::<Option<bool>>::empty());
    while k < MAX_PLAYERS
        invariant
            players@.len() == MAX_PLAYERS,
            k <= MAX_PLAYERS,
            c <= k,
            c == count_present(players@.take(k as int)),
        decreases MAX_PLAYERS - k,
    {
        proof {
            let t = players@.take(k + 1);
            assert(t.drop_last() =~= players@.take(k as int));
            assert(t.last() == players@[k as int]);
        }
        if players[k].is_some() {
            c = c + 1;
        }
        k = k + 1;
    }
    assert(players@.take(8) =~= players@);
    c
}

// ---------------------------------------------------------------------------
// What the vote board shows
// ---------------------------------------------------------------------------

/// What is shown to the chat about the current vote.
pub enum VoteListing {
    /// The offered effects, numbered from 1 in order, with their votes.
    Effects(Vec<(usize, usize)>),
    /// The effect being given away, and the player slots that hold a
    /// fighter (shown numbered from 1), with their votes.
    Player { effect: usize, players: Vec<(usize, usize)> },
}

/// [`VoteListing`] with sequences.
pub enum VoteListingView {
    Effects(Seq<(usize, usize)>),
    Player { effect: usize, players: Seq<(usize, usize)> },
}

impl View for VoteListing {
    type V = VoteListingView;

    open spec fn view(&self) -> VoteListingView {
        match self {
            VoteListing::Effects(e) => VoteListingView::Effects(e@),
            VoteListing::Player { effect, players } => VoteListingView::Player {
                effect: *effect,
                players: players@,
            },
        }
    }
}

/// Nothing is shown until a rotation is drawn.
pub open spec fn spec_vote_listing(m: VotingView) -> Option<VoteListingView> {
    if !rotation_full(m.rotation) {
        None
    } else {
        match m.mode {
            GameModes::ChooseEffect => Some(VoteListingView::Effects(effect_entries(m))),
            GameModes::ChoosePlayer => Some(
                VoteListingView::Player {
                    effect: m.offered(0),
                    players: present_entries(m.votes[m.offered(0) as int], MAX_PLAYERS as nat),
                },
            ),
        }
    }
}

proof fn lemma_get_players_unfold(m: VotingView, id: int, t: nat)
    requires
        !m.is_players_populated && m.voting_period_begin != 0,
    ensures
        ({
            let k = first_reaching(m.votes, t, 0);
            &&& spec_get_players(m, id, t).1 == (k < m.votes.len())
            &&& spec_get_players(m, id, t).0 == VotingView {
                votes: Seq::new(
                    m.votes.len(),
                    |x: int|
                        if x < k {
                            mark_present(m.votes[x], id)
                        } else {
                            m.votes[x]
                        },
                ),
                is_players_populated: k < m.votes.len(),
                ..m
            }
        }),
{
}

impl Voting {
    /// Records the fighter in slot `id` while the chat picks players (see
    /// [`spec_get_players`]); `total_fighters` is the number of fighters in
    /// the match. Returns whether this completed the recording.
    pub fn get_players(&mut self, id: usize, total_fighters: usize) -> (r: bool)
        requires
            old(self)@.wf(),
            id < MAX_PLAYERS,
        ensures
            final(self)@.wf(),
            (final(self)@, r) == spec_get_players(old(self)@, id as int, total_fighters as nat),
    {
        if !(!self.is_players_populated && self.voting_period_begin != 0) {
            return false;
        }
        let ghost m = self@;
        let ghost k = first_reaching(m.votes, total_fighters as nat, 0);
        let n = self.votes.len();
        let mut j: usize = 0;
        proof {
            lemma_first_reaching_bounds(m.votes, total_fighters as nat, 0);
            assert(self@.votes =~= Seq::new(
                m.votes.len(),
                |x: int|
                    if x < 0 {
                        mark_present(m.votes[x], id as int)
                    } else {
                        m.votes[x]
                    },
            ));
        }
        while j < n
            invariant
                m == old(self)@,
                m.wf(),
                !m.is_players_populated && m.voting_period_begin != 0,
                n == m.votes.len(),
                self.votes@.len() == n,
                id < MAX_PLAYERS,
                j <= n,
                j <= k,
                k == first_reaching(m.votes, total_fighters as nat, j as int),
                k == first_reaching(m.votes, total_fighters as nat, 0),
                self@ == (VotingView {
                    votes: Seq::new(
                        m.votes.len(),
                        |x: int|
                            if x < j {
                                mark_present(m.votes[x], id as int)
                            } else {
                                m.votes[x]
                            },
                    ),
                    ..m
                }),
            decreases n - j,
        {
            let mut v = self.votes[j];
            assert(v@ == self@.votes[j as int]);
            assert(v@ == m.votes[j as int]);
            let c = count_present_exec(&v.players);
            if c >= total_fighters {
                self.is_players_populated = true;
                proof {
                    assert(k == j);
                    lemma_get_players_unfold(m, id as int, total_fighters as nat);
                    let target = spec_get_players(m, id as int, total_fighters as nat).0;
                    assert(self@.votes =~= target.votes);
                    assert(self@ =~= target);
                }
                return true;
            }
            proof {
                lemma_first_reaching_bounds(m.votes, total_fighters as nat, j + 1);
            }
            v.players[id] = Some(false);
            assert(v@ == mark_present(m.votes[j as int], id as int));
            self.set_vote(j, v);
            j = j + 1;
            assert(self@.votes =~= Seq::new(
                m.votes.len(),
                |x: int|
                    if x < j {
                        mark_present(m.votes[x], id as int)
                    } else {
                        m.votes[x]
                    },
            ));
        }
        proof {
            lemma_get_players_unfold(m, id as int, total_fighters as nat);
            let target = spec_get_players(m, id as int, total_fighters as nat).0;
            assert(self@.votes =~= target.votes);
            assert(self@ =~= target);
        }
        false
    }

    /// What to show the chat about the current vote (see
    /// [`spec_vote_listing`]).
    pub fn vote_listing(&self) -> (r: Option<VoteListing>)
        requires
            self@.wf(),
            rotation_full(self@.rotation) ==> self@.votes.len() == NUM_EFFECTS,
        ensures
            match spec_vote_listing(self@) {
                Some(l) => r matches Some(x) && x@ == l,
                None => r is None,
            },
    {
        if self.rotation[0].is_none() {
            return None;
        }
        let entries = self.vote_entries();
        match self.mode {
            GameModes::ChooseEffect => Some(VoteListing::Effects(entries)),
            GameModes::ChoosePlayer => {
                let effect = match self.rotation[0] {
                    Some(e) => e,
                    None => 0,
                };
                Some(VoteListing::Player { effect, players: entries })
            },
        }
    }

    /// Whether the effects run on the fighter in slot `id` this frame: on
    /// everyone when the chat picks effects, on the chosen player otherwise.
    pub fn once_per_frame(&self, id: usize) -> (r: bool)
        ensures
            r == match self@.mode {
                GameModes::ChooseEffect => true,
                GameModes::ChoosePlayer => self@.player_effect_number == Some(id),
            },
    {
        match self.mode {
            GameModes::ChooseEffect => true,
            GameModes::ChoosePlayer => match self.player_effect_number {
                Some(p) => p == id,
                None => false,
            },
        }
    }

    /// Whether `effect` is currently on for the fighter in slot `id`.
    pub fn effect_on_for(&self, effect: usize, id: usize) -> (r: bool)
        requires
            self@.wf(),
            effect < NUM_EFFECTS,
            id < MAX_PLAYERS,
        ensures
            r == (self@.votes.len() > 0 && self@.votes[effect as int].is_on_for(id as int)),
    {
        if self.votes.len() == 0 {
            return false;
        }
        let v = self.votes[effect];
        assert(v@ == self@.votes[effect as int]);
        match v.players[id] {
            Some(b) => b,
            None => false,
        }
    }
}

} // verus!

