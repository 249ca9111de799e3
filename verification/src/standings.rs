use vstd::prelude::*;

verus! {

/// Car id of the player; the opponents are numbered from 1.
pub const PLAYER_ID: usize = 0;

/// No id occurs twice.
pub open spec fn distinct(s: Seq<usize>) -> bool {
    forall|i: int, j: int| 0 <= i < j < s.len() ==> s[i] != s[j]
}

/// The order after `id` crosses the line: appended unless already in.
pub open spec fn record_one(s: Seq<usize>, id: usize) -> Seq<usize> {
    if s.contains(id) {
        s
    } else {
        s.push(id)
    }
}

/// The order after the cars `ids` cross the line, one after the other.
pub open spec fn record_seq(s: Seq<usize>, ids: Seq<usize>) -> Seq<usize>
    decreases ids.len(),
{
    if ids.len() == 0 {
        s
    } else {
        record_one(record_seq(s, ids.drop_last()), ids.last())
    }
}

/// The finishing order of a race: car ids in the order they finished,
/// each at most once.
pub struct Standings {
    ids: Vec<usize>,
}

impl View for Standings {
    type V = Seq<usize>;

    closed spec fn view(&self) -> Seq<usize> {
        self.ids@
    }
}

/// What one step of the race's end bookkeeping did.
#[derive(Clone, Copy, PartialEq, Eq, Structural, Debug)]
pub struct FinishStep {
    /// The player's result was entered in this step.
    pub player_finished: bool,
    /// The race is over: every car has a place (finishers first, then the
    /// cars still running, as not finished).
    pub over: bool,
}

impl Standings {
    /// Nobody has finished.
    pub fn new() -> (s: Self)
        ensures
            s@ == Seq::<usize>::empty(),
    {
        Standings { ids: Vec::new() }
    }

    /// Number of cars placed.
    pub fn len(&self) -> (n: usize)
        ensures
            n == self@.len(),
    {
        self.ids.len()
    }

    /// The car in place `i` (0 is the winner).
    pub fn get(&self, i: usize) -> (id: usize)
        requires
            i < self@.len(),
        ensures
            id == self@[i as int],
    {
        self.ids[i]
    }

    /// Whether car `id` has a place.
    pub fn contains(&self, id: usize) -> (b: bool)
        ensures
            b == self@.contains(id),
    {
        let mut i: usize = 0;
        while i < self.ids.len()
            invariant
                0 <= i <= self.ids@.len(),
                forall|j: int| 0 <= j < i ==> self.ids@[j] != id,
            decreases self.ids@.len() - i,
        {
            if self.ids[i] == id {
                assert(self.ids@[i as int] == id);
                return true;
            }
            i += 1;
        }
        false
    }

    /// Car `id` crossed the line: it gets the next place unless it has one.
    pub fn record(&mut self, id: usize)
        ensures
            final(self)@ == record_one(old(self)@, id),
    {
        if !self.contains(id) {
            self.ids.push(id);
        }
    }

    /// The cars `ids` crossed the line in this order.
    pub fn record_all(&mut self, ids: &[usize])
        ensures
            final(self)@ == record_seq(old(self)@, ids@),
    {
        let mut i: usize = 0;
        while i < ids.len()
            invariant
                0 <= i <= ids@.len(),
                self@ == record_seq(old(self)@, ids@.take(i as int)),
            decreases ids@.len() - i,
        {
            proof {
                assert(ids@.take(i + 1).drop_last() =~= ids@.take(i as int));
            }
            self.record(ids[i]);
            i += 1;
        }
        assert(ids@.take(ids@.len() as int) =~= ids@);
    }

    /// The end-of-step bookkeeping of a race. `player_done`: the player
    /// has completed the race distance; `ai_finish_order`: the opponents
    /// that have finished, by finishing time; `ai_running`: those still
    /// running; `all_ai_finished`: no opponent still runs; `past_cap`: the
    /// winner finished more than a minute ago. Once somebody has a place,
    /// the race ends when every opponent and the player have finished, or
    /// at the cap, and the cars still running are placed after the rest.
    pub fn finish_step(
        &mut self,
        player_done: bool,
        ai_finish_order: &[usize],
        ai_running: &[usize],
        all_ai_finished: bool,
        past_cap: bool,
    ) -> (r: FinishStep)
        ensures
            ({
                let s1 = if player_done {
                    record_one(old(self)@, PLAYER_ID)
                } else {
                    old(self)@
                };
                let s2 = record_seq(s1, ai_finish_order@);
                let all_done = all_ai_finished && s2.contains(PLAYER_ID);
                &&& r.player_finished == (player_done && !old(self)@.contains(PLAYER_ID))
                &&& r.over == (s2.len() > 0 && (all_done || past_cap))
                &&& final(self)@ == if r.over {
                    record_seq(s2, ai_running@)
                } else {
                    s2
                }
            }),
    {
        let mut player_finished = false;
        if player_done && !self.contains(PLAYER_ID) {
            self.ids.push(PLAYER_ID);
            player_finished = true;
        }
        self.record_all(ai_finish_order);
        let mut over = false;
        if self.ids.len() > 0 {
            let all_done = all_ai_finished && self.contains(PLAYER_ID);
            if all_done || past_cap {
                self.record_all(ai_running);
                over = true;
            }
        }
        FinishStep { player_finished, over }
    }
}

/// Entering a car keeps the ids distinct.
pub proof fn lemma_record_one_distinct(s: Seq<usize>, id: usize)
    requires
        distinct(s),
    ensures
        distinct(record_one(s, id)),
        record_one(s, id).contains(id),
{
    if !s.contains(id) {
        let t = s.push(id);
        assert(t[s.len() as int] == id);
        assert forall|i: int, j: int| 0 <= i < j < t.len() implies t[i] != t[j] by {
            if j == s.len() {
                assert(t[i] == s[i]);
            }
        }
    }
}

/// Entering cars keeps every place already given, in order, and the ids
/// distinct; each entered car then has a place.
pub proof fn lemma_record_seq(s: Seq<usize>, ids: Seq<usize>)
    requires
        distinct(s),
    ensures
        distinct(record_seq(s, ids)),
        record_seq(s, ids).len() >= s.len(),
        record_seq(s, ids).take(s.len() as int) == s,
        forall|k: int| 0 <= k < ids.len() ==> record_seq(s, ids).contains(#[trigger] ids[k]),
    decreases ids.len(),
{
    if ids.len() > 0 {
        let prev = record_seq(s, ids.drop_last());
        lemma_record_seq(s, ids.drop_last());
        lemma_record_one_distinct(prev, ids.last());
        let now = record_one(prev, ids.last());
        assert(now.take(s.len() as int) =~= prev.take(s.len() as int));
        assert forall|k: int| 0 <= k < ids.len() implies now.contains(#[trigger] ids[k]) by {
            if k < ids.len() - 1 {
                assert(ids.drop_last()[k] == ids[k]);
                assert(prev.contains(ids[k]));
                let w = choose|w: int| 0 <= w < prev.len() && prev[w] == ids[k];
                assert(now[w] == ids[k]);
            }
        }
    }
}

/// The race's bookkeeping never places a car twice, never moves a car
/// once placed, and when the race is over every car named to it has a
/// place.
pub proof fn lemma_finish_step_keeps_order(
    s: Seq<usize>,
    player_done: bool,
    ai_finish_order: Seq<usize>,
    ai_running: Seq<usize>,
    all_ai_finished: bool,
    past_cap: bool,
)
    requires
        distinct(s),
    ensures
        ({
            let s1 = if player_done {
                record_one(s, PLAYER_ID)
            } else {
                s
            };
            let s2 = record_seq(s1, ai_finish_order);
            let over = s2.len() > 0 && ((all_ai_finished && s2.contains(PLAYER_ID)) || past_cap);
            let out = if over {
                record_seq(s2, ai_running)
            } else {
                s2
            };
            &&& distinct(out)
            &&& out.len() >= s.len()
            &&& out.take(s.len() as int) == s
            &&& (player_done ==> out.contains(PLAYER_ID))
            &&& (forall|k: int| 0 <= k < ai_finish_order.len() ==> out.contains(#[trigger] ai_finish_order[k]))
            &&& (over ==> forall|k: int| 0 <= k < ai_running.len() ==> out.contains(#[trigger] ai_running[k]))
        }),
{
    let s1 = if player_done {
        record_one(s, PLAYER_ID)
    } else {
        s
    };
    lemma_record_one_distinct(s, PLAYER_ID);
    assert(record_one(s, PLAYER_ID).take(s.len() as int) =~= s);
    lemma_record_seq(s1, ai_finish_order);
    let s2 = record_seq(s1, ai_finish_order);
    assert(s2.take(s.len() as int) =~= s) by {
        assert(s2.take(s1.len() as int).take(s.len() as int) =~= s2.take(s.len() as int));
    }
    if player_done {
        let w = choose|w: int| 0 <= w < s1.len() && s1[w] == PLAYER_ID;
        assert(s2.take(s1.len() as int)[w] == s2[w]);
        assert(s2.contains(PLAYER_ID));
    }
    let over = s2.len() > 0 && ((all_ai_finished && s2.contains(PLAYER_ID)) || past_cap);
    if over {
        lemma_record_seq(s2, ai_running);
        let out = record_seq(s2, ai_running);
        assert(out.take(s.len() as int) =~= s) by {
            assert(out.take(s2.len() as int).take(s.len() as int) =~= out.take(s.len() as int));
        }
        assert forall|k: int| 0 <= k < ai_finish_order.len() implies out.contains(
            #[trigger] ai_finish_order[k],
        ) by {
            let w = choose|w: int| 0 <= w < s2.len() && s2[w] == ai_finish_order[k];
            assert(out.take(s2.len() as int)[w] == out[w]);
        }
        if player_done {
            let w = choose|w: int| 0 <= w < s2.len() && s2[w] == PLAYER_ID;
            assert(out.take(s2.len() as int)[w] == out[w]);
        }
    }
}

} // verus!
