//! The book-keeping of a conversation's cache: which turn stands where, and what is dropped when
//! the next one does not fit.

use vstd::prelude::*;

verus! {

/// Whose turn it is.
#[derive(Debug, Clone, Copy, PartialEq, Eq, Structural)]
pub enum Role {
    User,
    Assistant,
}

/// One completed turn's span in the cache, from `start_pos` up to `end_pos`.
#[derive(Debug, Clone, Copy, PartialEq, Eq, Structural)]
pub struct TurnBoundary {
    pub role: Role,
    pub start_pos: i32,
    pub end_pos: i32,
}

/// What a conversation does when the next turn would not fit.
#[derive(Debug, Clone, Copy, PartialEq, Eq, Structural)]
pub enum OverflowPolicy {
    /// Refuse, rather than lose any history.
    Fail,
    /// Drop whole exchanges from the front, oldest first, until the new turn fits.
    DropOldestTurns,
}

/// A span to remove from the cache; everything after it moves down to close the gap.
#[derive(Debug, Clone, Copy, PartialEq, Eq, Structural)]
pub struct KvShift {
    pub start: i32,
    pub end: i32,
}

/// Why there is no room for a turn.
#[derive(Debug, Clone, Copy, PartialEq, Eq, Structural)]
pub enum NoRoom {
    /// It does not fit and nothing may be dropped.
    ContextFull { committed_pos: i32, needed: i32, n_ctx: i32 },
    /// It does not fit and there is nothing left that can be dropped.
    TooLargeToTrim,
}

/// What a conversation's cache holds.
#[derive(Debug)]
pub struct Ledger {
    /// The next position in the cache.
    pub committed_pos: i32,
    /// How many positions the cache has.
    pub n_ctx: i32,
    /// The completed turns, oldest first.
    pub turns: Vec<TurnBoundary>,
    /// What to do when a turn does not fit.
    pub overflow: OverflowPolicy,
    /// Every token in the cache, in order.
    pub tokens: Vec<i32>,
    /// How many tokens at the front are the conversation's opening, which is never dropped; zero
    /// where that is not known.
    pub protected_prefix: i32,
}

/// The content of a [`Ledger`].
#[verifier::ext_equal]
pub struct LedgerView {
    pub committed_pos: int,
    pub n_ctx: int,
    pub turns: Seq<TurnBoundary>,
    pub overflow: OverflowPolicy,
    pub tokens: Seq<i32>,
    pub protected_prefix: int,
}

impl View for Ledger {
    type V = LedgerView;

    open spec fn view(&self) -> LedgerView {
        LedgerView {
            committed_pos: self.committed_pos as int,
            n_ctx: self.n_ctx as int,
            turns: self.turns@,
            overflow: self.overflow,
            tokens: self.tokens@,
            protected_prefix: self.protected_prefix as int,
        }
    }
}

/// The turns stand one after the other, from a position that is not negative up to `end`.
pub open spec fn contiguous(turns: Seq<TurnBoundary>, end: int) -> bool {
    &&& forall|i: int|
        0 <= i < turns.len() ==> 0 <= (#[trigger] turns[i]).start_pos <= turns[i].end_pos <= end
    &&& forall|i: int, j: int|
        0 <= i && j == i + 1 && j < turns.len() ==> (#[trigger] turns[i]).end_pos == (
        #[trigger] turns[j]).start_pos
    &&& turns.len() > 0 ==> turns.last().end_pos == end
}

/// The turns are exchanges: a user's turn and the reply to it, again and again.
pub open spec fn alternating(turns: Seq<TurnBoundary>) -> bool {
    forall|i: int|
        0 <= i < turns.len() ==> (#[trigger] turns[i]).role == if i % 2 == 0 {
            Role::User
        } else {
            Role::Assistant
        }
}

/// There are whole exchanges only: no user's turn is without a reply.
pub open spec fn whole(turns: Seq<TurnBoundary>) -> bool {
    alternating(turns) && turns.len() % 2 == 0
}

/// How many exchanges were completed: as many as there are replies.
pub open spec fn completed(turns: Seq<TurnBoundary>) -> nat
    decreases turns.len(),
{
    if turns.len() == 0 {
        0
    } else {
        completed(turns.drop_last()) + if turns.last().role == Role::Assistant {
            1nat
        } else {
            0nat
        }
    }
}

impl LedgerView {
    /// The book-keeping agrees with itself.
    pub open spec fn wf(self) -> bool {
        &&& 0 <= self.committed_pos <= i32::MAX
        &&& 0 <= self.protected_prefix <= i32::MAX
        &&& self.tokens.len() == self.committed_pos
        &&& contiguous(self.turns, self.committed_pos)
    }

    /// `needed` more tokens fit.
    pub open spec fn fits(self, needed: int) -> bool {
        self.committed_pos + needed < self.n_ctx
    }

    /// Where the oldest exchange begins that can be dropped: never inside the opening.
    pub open spec fn drop_start(self) -> int {
        if self.turns[0].start_pos >= self.protected_prefix {
            self.turns[0].start_pos as int
        } else {
            self.protected_prefix
        }
    }

    /// After a turn of `role` went into the cache.
    pub open spec fn with_turn(self, role: Role, tokens: Seq<i32>) -> LedgerView {
        LedgerView {
            committed_pos: self.committed_pos + tokens.len(),
            turns: self.turns.push(
                TurnBoundary {
                    role,
                    start_pos: self.committed_pos as i32,
                    end_pos: (self.committed_pos + tokens.len()) as i32,
                },
            ),
            tokens: self.tokens + tokens,
            ..self
        }
    }

    /// Without the newest turn.
    pub open spec fn without_last(self) -> LedgerView {
        let start = self.turns.last().start_pos as int;
        LedgerView {
            committed_pos: start,
            turns: self.turns.drop_last(),
            tokens: self.tokens.take(start),
            ..self
        }
    }

    /// After the first exchange was dropped from `start` on.
    pub open spec fn without_first(self, start: int) -> LedgerView {
        let end = self.turns[1].end_pos as int;
        LedgerView {
            committed_pos: self.committed_pos - (end - start),
            turns: moved_down(self.turns.skip(2), end - start),
            tokens: self.tokens.take(start) + self.tokens.skip(end),
            ..self
        }
    }
}

/// `turns`, each `by` positions further to the front.
pub open spec fn moved_down(turns: Seq<TurnBoundary>, by: int) -> Seq<TurnBoundary> {
    Seq::new(
        turns.len(),
        |i: int|
            TurnBoundary {
                role: turns[i].role,
                start_pos: (turns[i].start_pos - by) as i32,
                end_pos: (turns[i].end_pos - by) as i32,
            },
    )
}

/// What is left after exchanges were dropped, what was removed from the cache on the way, and
/// whether it was enough.
pub struct Dropped {
    pub after: LedgerView,
    pub shifts: Seq<KvShift>,
    pub enough: bool,
}

/// Drops whole exchanges from the front, oldest first, until `needed` more tokens fit. An exchange
/// that lies wholly inside the opening frees nothing and ends it.
pub open spec fn dropped_for(l: LedgerView, needed: int) -> Dropped
    decreases l.turns.len(),
{
    if l.fits(needed) {
        Dropped { after: l, shifts: Seq::empty(), enough: true }
    } else if l.turns.len() < 2 {
        Dropped { after: l, shifts: Seq::empty(), enough: false }
    } else {
        let start = l.drop_start();
        let end = l.turns[1].end_pos as int;
        if end <= start {
            Dropped {
                after: LedgerView { turns: l.turns.skip(2), ..l },
                shifts: Seq::empty(),
                enough: false,
            }
        } else {
            let rest = dropped_for(l.without_first(start), needed);
            Dropped {
                shifts: seq![KvShift { start: start as i32, end: end as i32 }] + rest.shifts,
                ..rest
            }
        }
    }
}

/// A cache after spans were removed from it, one after the other.
pub open spec fn after_shifts(cache: Seq<i32>, shifts: Seq<KvShift>) -> Seq<i32>
    decreases shifts.len(),
{
    if shifts.len() == 0 {
        cache
    } else {
        after_shifts(
            cache.take(shifts[0].start as int) + cache.skip(shifts[0].end as int),
            shifts.skip(1),
        )
    }
}

/// Makes room for `needed` more tokens as the policy says.
pub open spec fn room_for(l: LedgerView, needed: int) -> Dropped {
    if l.fits(needed) || l.overflow == OverflowPolicy::DropOldestTurns {
        dropped_for(l, needed)
    } else {
        Dropped { after: l, shifts: Seq::empty(), enough: false }
    }
}

/// Dropping the first exchange keeps the book-keeping in order.
proof fn lemma_without_first(l: LedgerView)
    requires
        l.wf(),
        l.turns.len() >= 2,
        l.drop_start() < l.turns[1].end_pos,
    ensures
        l.without_first(l.drop_start()).wf(),
        0 <= l.drop_start() < l.turns[1].end_pos <= l.tokens.len(),
        forall|i: int|
            2 <= i < l.turns.len() ==> (#[trigger] l.turns[i]).start_pos >= l.turns[1].end_pos,
        l.turns.len() > 2 ==> l.without_first(l.drop_start()).turns[0].start_pos == l.drop_start(),
{
    let start = l.drop_start();
    let end = l.turns[1].end_pos as int;
    assert(l.turns[0].start_pos >= 0);
    assert(l.turns[1].end_pos <= l.committed_pos);
    assert forall|i: int| 2 <= i < l.turns.len() implies (#[trigger] l.turns[i]).start_pos
        >= end by {
        lemma_later_turns(l.turns, l.committed_pos, 1, i);
    }
    let after = l.without_first(start);
    let rest = l.turns.skip(2);
    assert forall|i: int| 0 <= i < after.turns.len() implies 0 <= (#[trigger] after.turns[i]).start_pos
        <= after.turns[i].end_pos <= after.committed_pos by {
        assert(rest[i] == l.turns[i + 2]);
        assert(l.turns[i + 2].start_pos >= end);
        assert(l.turns[i + 2].end_pos <= l.committed_pos);
    }
    assert forall|i: int, j: int| 0 <= i && j == i + 1 && j < after.turns.len() implies (
    #[trigger] after.turns[i]).end_pos == (#[trigger] after.turns[j]).start_pos by {
        assert(rest[i] == l.turns[i + 2]);
        assert(rest[j] == l.turns[j + 2]);
        assert(l.turns[i + 2].end_pos == l.turns[j + 2].start_pos);
        assert(l.turns[i + 2].start_pos >= end);
        assert(l.turns[j + 2].start_pos >= end);
    }
    if after.turns.len() > 0 {
        let last = after.turns.len() - 1;
        assert(rest[last] == l.turns[last + 2]);
        assert(l.turns.last() == l.turns[last + 2]);
        assert(l.turns[last + 2].start_pos >= end);
        assert(rest[0] == l.turns[2]);
        assert(l.turns[1].end_pos == l.turns[2].start_pos);
    }
}

/// A later turn begins where an earlier one has ended, or after.
proof fn lemma_later_turns(turns: Seq<TurnBoundary>, end: int, i: int, j: int)
    requires
        contiguous(turns, end),
        0 <= i < j < turns.len(),
    ensures
        turns[i].end_pos <= turns[j].start_pos,
    decreases j - i,
{
    assert(turns[i].end_pos == turns[i + 1].start_pos);
    if i + 1 < j {
        assert(turns[i + 1].start_pos <= turns[i + 1].end_pos);
        lemma_later_turns(turns, end, i + 1, j);
    }
}

impl Ledger {
    /// Nothing in a cache of `n_ctx` positions.
    pub fn new(n_ctx: i32, overflow: OverflowPolicy) -> (r: Self)
        ensures
            r@ == (LedgerView {
                committed_pos: 0,
                n_ctx: n_ctx as int,
                turns: Seq::empty(),
                overflow,
                tokens: Seq::empty(),
                protected_prefix: 0,
            }),
            r@.wf(),
    {
        Ledger {
            committed_pos: 0,
            n_ctx,
            turns: Vec::new(),
            overflow,
            tokens: Vec::new(),
            protected_prefix: 0,
        }
    }

    /// Whether the book-keeping agrees with itself, as that of a ledger from elsewhere may not.
    pub fn is_consistent(&self) -> (r: bool)
        ensures
            r == self@.wf(),
    {
        if self.committed_pos < 0 || self.protected_prefix < 0 || self.tokens.len()
            != self.committed_pos as usize {
            return false;
        }
        let n: usize = self.turns.len();
        if n > 0 && self.turns[n - 1].end_pos != self.committed_pos {
            return false;
        }
        let mut i: usize = 0;
        while i < n
            invariant
                i <= n,
                n == self.turns@.len(),
                self.committed_pos >= 0,
                forall|k: int|
                    0 <= k < i ==> 0 <= (#[trigger] self.turns@[k]).start_pos
                        <= self.turns@[k].end_pos <= self.committed_pos,
                forall|k: int, j: int|
                    0 <= k && j == k + 1 && j < i ==> (#[trigger] self.turns@[k]).end_pos == (
                    #[trigger] self.turns@[j]).start_pos,
            decreases n - i,
        {
            let t: TurnBoundary = self.turns[i];
            if t.start_pos < 0 || t.start_pos > t.end_pos || t.end_pos > self.committed_pos {
                assert(!(0 <= self.turns@[i as int].start_pos <= self.turns@[i as int].end_pos
                    <= self.committed_pos));
                return false;
            }
            if i > 0 && self.turns[i - 1].end_pos != t.start_pos {
                assert(self.turns@[i - 1].end_pos != self.turns@[i as int].start_pos);
                return false;
            }
            i += 1;
        }
        true
    }

    /// How many exchanges were completed.
    pub fn turn_count(&self) -> (r: usize)
        ensures
            r == completed(self@.turns),
            alternating(self@.turns) ==> r == self@.turns.len() / 2,
    {
        let mut r: usize = 0;
        let mut i: usize = 0;
        while i < self.turns.len()
            invariant
                r <= i <= self.turns.len(),
                r == completed(self.turns@.take(i as int)),
            decreases self.turns.len() - i,
        {
            if self.turns[i].role == Role::Assistant {
                r += 1;
            }
            i += 1;
            assert(self.turns@.take(i as int).drop_last() =~= self.turns@.take(i - 1));
        }
        proof {
            assert(self.turns@.take(i as int) =~= self.turns@);
            if alternating(self@.turns) {
                lemma_completed(self@.turns);
            }
        }
        r
    }

    /// Takes the newest turn out again.
    pub fn withdraw(&mut self)
        requires
            old(self)@.wf(),
            old(self)@.turns.len() > 0,
        ensures
            final(self)@ == old(self)@.without_last(),
            final(self)@.wf(),
    {
        let ghost before = self@;
        let start: i32 = match self.turns.pop() {
            Some(turn) => turn.start_pos,
            None => self.committed_pos,
        };
        self.committed_pos = start;
        self.tokens.truncate(start as usize);
        proof {
            assert(self@ =~= before.without_last());
            let turns = self@.turns;
            assert(forall|i: int| 0 <= i < turns.len() ==> #[trigger] turns[i] == before.turns[i]);
            assert forall|i: int| 0 <= i < turns.len() implies 0 <= (#[trigger] turns[i]).start_pos
                <= turns[i].end_pos <= start by {
                lemma_later_turns(before.turns, before.committed_pos, i, turns.len() as int);
            }
        }
    }

    /// Enters a turn whose tokens went into the cache.
    pub fn record_turn(&mut self, role: Role, tokens: &[i32])
        requires
            old(self)@.wf(),
            old(self).committed_pos + tokens@.len() <= i32::MAX,
        ensures
            final(self)@ == old(self)@.with_turn(role, tokens@),
            final(self)@.wf(),
    {
        let start: i32 = self.committed_pos;
        let ghost before = self@;
        let mut i: usize = 0;
        assert(self.tokens@ =~= before.tokens + tokens@.take(0));
        while i < tokens.len()
            invariant
                i <= tokens.len(),
                self.tokens@ == before.tokens + tokens@.take(i as int),
                self.committed_pos == start,
                self.turns@ == before.turns,
                self.n_ctx == before.n_ctx,
                self.overflow == before.overflow,
                self.protected_prefix == before.protected_prefix,
            decreases tokens.len() - i,
        {
            self.tokens.push(tokens[i]);
            i += 1;
            assert(self.tokens@ =~= before.tokens + tokens@.take(i as int));
        }
        assert(tokens@.take(i as int) =~= tokens@);
        let end: i32 = start + tokens.len() as i32;
        self.committed_pos = end;
        self.turns.push(TurnBoundary { role, start_pos: start, end_pos: end });
        proof {
            assert(self@ =~= before.with_turn(role, tokens@));
            let turns = self@.turns;
            assert forall|i: int| 0 <= i < turns.len() implies 0 <= (#[trigger] turns[i]).start_pos
                <= turns[i].end_pos <= end by {
                if i < before.turns.len() {
                    assert(turns[i] == before.turns[i]);
                }
            }
            assert forall|i: int, j: int| 0 <= i && j == i + 1 && j < turns.len() implies (
            #[trigger] turns[i]).end_pos == (#[trigger] turns[j]).start_pos by {
                assert(turns[i] == before.turns[i]);
                if j < before.turns.len() {
                    assert(turns[j] == before.turns[j]);
                }
            }
        }
    }

    /// Drops the first exchange from `start` on.
    fn drop_first(&mut self, start: i32)
        requires
            old(self)@.wf(),
            old(self)@.turns.len() >= 2,
            start == old(self)@.drop_start(),
            start < old(self)@.turns[1].end_pos,
        ensures
            final(self)@ == old(self)@.without_first(start as int),
            final(self)@.wf(),
    {
        let ghost before = self@;
        proof {
            lemma_without_first(before);
        }
        let end: i32 = self.turns[1].end_pos;
        let by: i32 = end - start;
        let mut turns: Vec<TurnBoundary> = Vec::new();
        let mut i: usize = 2;
        while i < self.turns.len()
            invariant
                2 <= i <= self.turns.len(),
                self@ == before,
                before.wf(),
                0 <= start < end,
                by == end - start,
                end == before.turns[1].end_pos,
                forall|k: int|
                    2 <= k < before.turns.len() ==> (#[trigger] before.turns[k]).start_pos >= end,
                turns@.len() == i - 2,
                forall|k: int|
                    0 <= k < turns@.len() ==> #[trigger] turns@[k] == moved_down(
                        before.turns.skip(2),
                        by as int,
                    )[k],
            decreases self.turns.len() - i,
        {
            let t: TurnBoundary = self.turns[i];
            assert(before.turns[i as int].start_pos >= end);
            assert(before.turns.skip(2)[i - 2] == before.turns[i as int]);
            turns.push(
                TurnBoundary {
                    role: t.role,
                    start_pos: t.start_pos - by,
                    end_pos: t.end_pos - by,
                },
            );
            i += 1;
        }
        assert(turns@ =~= moved_down(before.turns.skip(2), by as int));
        let n: usize = self.tokens.len();
        let mut tokens: Vec<i32> = Vec::new();
        let mut i: usize = 0;
        while i < start as usize
            invariant
                0 <= start < end <= n,
                i <= start,
                n == self.tokens@.len(),
                self@ == before,
                tokens@ == before.tokens.take(i as int),
            decreases start - i,
        {
            tokens.push(self.tokens[i]);
            i += 1;
        }
        let mut i: usize = end as usize;
        assert(tokens@ =~= before.tokens.take(start as int) + before.tokens.subrange(
            end as int,
            end as int,
        ));
        while i < n
            invariant
                0 <= start < end <= i <= n,
                n == self.tokens@.len(),
                self@ == before,
                tokens@ == before.tokens.take(start as int) + before.tokens.subrange(
                    end as int,
                    i as int,
                ),
            decreases n - i,
        {
            tokens.push(self.tokens[i]);
            i += 1;
            assert(tokens@ =~= before.tokens.take(start as int) + before.tokens.subrange(
                end as int,
                i as int,
            ));
        }
        assert(tokens@ =~= before.tokens.take(start as int) + before.tokens.skip(end as int));
        self.turns = turns;
        self.tokens = tokens;
        self.committed_pos = self.committed_pos - by;
    }

    /// Drops whole exchanges from the front, oldest first, until `needed` more tokens fit. Returns
    /// what to remove from the cache, in order, and whether it was enough.
    pub fn drop_oldest_turns_for(&mut self, needed: i32) -> (r: (Vec<KvShift>, bool))
        requires
            old(self)@.wf(),
            i32::MIN <= old(self).committed_pos + needed <= i32::MAX,
        ensures
            final(self)@ == dropped_for(old(self)@, needed as int).after,
            r.0@ == dropped_for(old(self)@, needed as int).shifts,
            r.1 == dropped_for(old(self)@, needed as int).enough,
            final(self)@.wf(),
    {
        let ghost all = dropped_for(self@, needed as int);
        let mut shifts: Vec<KvShift> = Vec::new();
        assert(shifts@ + all.shifts =~= all.shifts);
        while self.committed_pos + needed >= self.n_ctx
            invariant
                self@.wf(),
                i32::MIN <= self.committed_pos + needed <= i32::MAX,
                all == dropped_for(old(self)@, needed as int),
                all.after == dropped_for(self@, needed as int).after,
                all.enough == dropped_for(self@, needed as int).enough,
                all.shifts == shifts@ + dropped_for(self@, needed as int).shifts,
            decreases self.turns.len(),
        {
            if self.turns.len() < 2 {
                assert(shifts@ + Seq::<KvShift>::empty() =~= shifts@);
                return (shifts, false);
            }
            let first: i32 = self.turns[0].start_pos;
            let start: i32 = if first >= self.protected_prefix {
                first
            } else {
                self.protected_prefix
            };
            let end: i32 = self.turns[1].end_pos;
            if end <= start {
                let ghost l = self@;
                let mut turns: Vec<TurnBoundary> = Vec::new();
                let mut i: usize = 2;
                while i < self.turns.len()
                    invariant
                        2 <= i <= self.turns.len(),
                        self@ == l,
                        turns@ == l.turns.subrange(2, i as int),
                    decreases self.turns.len() - i,
                {
                    turns.push(self.turns[i]);
                    i += 1;
                    assert(turns@ =~= l.turns.subrange(2, i as int));
                }
                self.turns = turns;
                proof {
                    assert(self.turns@ =~= l.turns.skip(2));
                    assert(shifts@ + Seq::<KvShift>::empty() =~= shifts@);
                    lemma_fewer_turns(l);
                }
                return (shifts, false);
            }
            let ghost l = self@;
            proof {
                lemma_without_first(l);
                let rest = dropped_for(l.without_first(start as int), needed as int);
                assert(shifts@ + (seq![KvShift { start, end }] + rest.shifts) =~= shifts@.push(
                    KvShift { start, end },
                ) + rest.shifts);
            }
            self.drop_first(start);
            shifts.push(KvShift { start, end });
        }
        assert(shifts@ + Seq::<KvShift>::empty() =~= shifts@);
        (shifts, true)
    }

    /// Makes room for `needed` more tokens, dropping the oldest exchanges if the policy allows it.
    /// Returns what to remove from the cache, in order, whether or not it was enough.
    pub fn ensure_room_for(&mut self, needed: i32) -> (r: (Vec<KvShift>, Result<(), NoRoom>))
        requires
            old(self)@.wf(),
            i32::MIN <= old(self).committed_pos + needed <= i32::MAX,
        ensures
            final(self)@ == room_for(old(self)@, needed as int).after,
            r.0@ == room_for(old(self)@, needed as int).shifts,
            final(self)@.wf(),
            match r.1 {
                Ok(_) => room_for(old(self)@, needed as int).enough,
                Err(e) => !room_for(old(self)@, needed as int).enough && e == (match old(
                    self,
                ).overflow {
                    OverflowPolicy::Fail => NoRoom::ContextFull {
                        committed_pos: old(self).committed_pos,
                        needed,
                        n_ctx: old(self).n_ctx,
                    },
                    OverflowPolicy::DropOldestTurns => NoRoom::TooLargeToTrim,
                }),
            },
    {
        if self.committed_pos + needed < self.n_ctx {
            return (Vec::new(), Ok(()));
        }
        match self.overflow {
            OverflowPolicy::Fail => (
                Vec::new(),
                Err(
                    NoRoom::ContextFull {
                        committed_pos: self.committed_pos,
                        needed,
                        n_ctx: self.n_ctx,
                    },
                ),
            ),
            OverflowPolicy::DropOldestTurns => {
                let (shifts, enough) = self.drop_oldest_turns_for(needed);
                if enough {
                    (shifts, Ok(()))
                } else {
                    (shifts, Err(NoRoom::TooLargeToTrim))
                }
            },
        }
    }
}

/// Forgetting the first exchange keeps the book-keeping in order.
proof fn lemma_fewer_turns(l: LedgerView)
    requires
        l.wf(),
        l.turns.len() >= 2,
    ensures
        (LedgerView { turns: l.turns.skip(2), ..l }).wf(),
{
    let rest = l.turns.skip(2);
    assert forall|i: int| 0 <= i < rest.len() implies 0 <= (#[trigger] rest[i]).start_pos
        <= rest[i].end_pos <= l.committed_pos by {
        assert(rest[i] == l.turns[i + 2]);
    }
    assert forall|i: int, j: int| 0 <= i && j == i + 1 && j < rest.len() implies (
    #[trigger] rest[i]).end_pos == (#[trigger] rest[j]).start_pos by {
        assert(rest[i] == l.turns[i + 2]);
        assert(rest[j] == l.turns[j + 2]);
    }
}

/// Dropping exchanges keeps the book-keeping in order, and makes room where it says that it was
/// enough.
pub proof fn law_enough_room(l: LedgerView, needed: int)
    requires
        l.wf(),
    ensures
        room_for(l, needed).after.wf(),
        room_for(l, needed).enough ==> room_for(l, needed).after.fits(needed),
    decreases l.turns.len(),
{
    if !l.fits(needed) && l.overflow == OverflowPolicy::DropOldestTurns && l.turns.len() >= 2 {
        if l.turns[1].end_pos <= l.drop_start() {
            lemma_fewer_turns(l);
        } else {
            lemma_without_first(l);
            law_enough_room(l.without_first(l.drop_start()), needed);
        }
    }
}

/// Making room never takes up any.
pub proof fn lemma_no_more_than_before(l: LedgerView, needed: int)
    requires
        l.wf(),
    ensures
        room_for(l, needed).after.committed_pos <= l.committed_pos,
        room_for(l, needed).after.n_ctx == l.n_ctx,
    decreases l.turns.len(),
{
    if !l.fits(needed) && l.overflow == OverflowPolicy::DropOldestTurns && l.turns.len() >= 2
        && l.turns[1].end_pos > l.drop_start() {
        lemma_without_first(l);
        lemma_no_more_than_before(l.without_first(l.drop_start()), needed);
    }
}

/// What a conversation holds where nothing is to be dropped stays as it is.
pub proof fn law_nothing_dropped_where_it_fits(l: LedgerView, needed: int)
    requires
        l.fits(needed),
    ensures
        room_for(l, needed).after == l,
        room_for(l, needed).enough,
        room_for(l, needed).shifts.len() == 0,
{
}

/// Only history is dropped, oldest first: what is left in the cache is its beginning, with all of
/// the opening, and its end; what lies between is gone.
pub proof fn law_opening_and_newest_kept(l: LedgerView, needed: int) -> (cut: (int, int))
    requires
        l.wf(),
    ensures
        0 <= cut.0 <= cut.1 <= l.tokens.len(),
        cut.0 >= l.protected_prefix || cut.0 == cut.1,
        room_for(l, needed).after.tokens == l.tokens.take(cut.0) + l.tokens.skip(cut.1),
        room_for(l, needed).shifts.len() == 0 ==> cut.0 == cut.1,
        l.turns.len() > 0 && cut.0 < cut.1 ==> cut.0 == l.drop_start(),
        cut.0 == cut.1 || cut.1 >= l.drop_start(),
        room_for(l, needed).after.protected_prefix == l.protected_prefix,
    decreases l.turns.len(),
{
    if !l.fits(needed) && l.overflow == OverflowPolicy::DropOldestTurns && l.turns.len() >= 2
        && l.turns[1].end_pos > l.drop_start() {
        lemma_without_first(l);
        let start = l.drop_start();
        let end = l.turns[1].end_pos as int;
        let next = l.without_first(start);
        let (a, b) = law_opening_and_newest_kept(next, needed);
        if a == b {
            assert(next.tokens.take(a) + next.tokens.skip(b) =~= next.tokens);
            (start, end)
        } else {
            assert(next.turns.len() > 0) by {
                if next.turns.len() == 0 {
                    assert(room_for(next, needed).shifts.len() == 0);
                }
            }
            assert(next.drop_start() == start);
            assert(next.tokens.take(a) =~= l.tokens.take(start));
            assert(next.tokens.skip(b) =~= l.tokens.skip(end + (b - start)));
            (start, end + (b - start))
        }
    } else {
        assert(l.tokens.take(0) + l.tokens.skip(0) =~= l.tokens);
        (0, 0)
    }
}

/// The cache goes with the ledger: removing the spans that making room names, in order, leaves in
/// the cache just the tokens that the ledger still has.
pub proof fn law_the_cache_is_shifted_with_the_ledger(l: LedgerView, needed: int)
    requires
        l.wf(),
    ensures
        after_shifts(l.tokens, room_for(l, needed).shifts) == room_for(l, needed).after.tokens,
    decreases l.turns.len(),
{
    if !l.fits(needed) && l.overflow == OverflowPolicy::DropOldestTurns && l.turns.len() >= 2
        && l.turns[1].end_pos > l.drop_start() {
        lemma_without_first(l);
        let start = l.drop_start();
        let next = l.without_first(start);
        let shifts = room_for(l, needed).shifts;
        law_the_cache_is_shifted_with_the_ledger(next, needed);
        assert(shifts.skip(1) =~= room_for(next, needed).shifts);
        assert(shifts[0].start == start && shifts[0].end == l.turns[1].end_pos);
        assert(next.tokens =~= l.tokens.take(shifts[0].start as int) + l.tokens.skip(
            shifts[0].end as int,
        ));
    }
}

/// Exchanges stay exchanges: a user's turn is dropped together with the reply to it.
pub proof fn law_exchanges_stay_whole(l: LedgerView, needed: int)
    requires
        alternating(l.turns),
    ensures
        alternating(room_for(l, needed).after.turns),
        room_for(l, needed).after.turns.len() % 2 == l.turns.len() % 2,
        whole(l.turns) ==> whole(room_for(l, needed).after.turns),
    decreases l.turns.len(),
{
    if !l.fits(needed) && l.overflow == OverflowPolicy::DropOldestTurns && l.turns.len() >= 2 {
        let rest = l.turns.skip(2);
        assert forall|i: int| 0 <= i < rest.len() implies (#[trigger] rest[i]).role == if i % 2
            == 0 {
            Role::User
        } else {
            Role::Assistant
        } by {
            assert(rest[i] == l.turns[i + 2]);
        }
        if l.turns[1].end_pos > l.drop_start() {
            let next = l.without_first(l.drop_start());
            assert forall|i: int| 0 <= i < next.turns.len() implies (#[trigger] next.turns[i]).role
                == if i % 2 == 0 {
                Role::User
            } else {
                Role::Assistant
            } by {
                assert(next.turns[i].role == rest[i].role);
            }
            law_exchanges_stay_whole(next, needed);
        }
    }
}

/// Turns that alternate are exchanges, two turns each, and at most one user's turn that is not
/// replied to.
pub proof fn lemma_completed(turns: Seq<TurnBoundary>)
    requires
        alternating(turns),
    ensures
        completed(turns) == turns.len() / 2,
    decreases turns.len(),
{
    if turns.len() > 0 {
        let rest = turns.drop_last();
        assert(forall|i: int| 0 <= i < rest.len() ==> #[trigger] rest[i] == turns[i]);
        lemma_completed(rest);
        assert(turns.last() == turns[turns.len() - 1]);
    }
}

/// A user's turn and the reply to it make one exchange more, and where there were whole exchanges
/// only, there still are.
pub proof fn law_one_more_exchange(l: LedgerView, user: Seq<i32>, reply: Seq<i32>)
    ensures
        ({
            let after = l.with_turn(Role::User, user).with_turn(Role::Assistant, reply);
            &&& whole(l.turns) ==> whole(after.turns)
            &&& completed(after.turns) == completed(l.turns) + 1
            &&& after.turns.len() == l.turns.len() + 2
            &&& after.tokens == l.tokens + user + reply
        }),
{
    let begun = l.with_turn(Role::User, user);
    let after = begun.with_turn(Role::Assistant, reply);
    assert(begun.turns.drop_last() =~= l.turns);
    assert(after.turns.drop_last() =~= begun.turns);
    assert(completed(begun.turns) == completed(l.turns));
}

/// A turn that is taken out again leaves everything as it was.
pub proof fn law_withdrawing_undoes(l: LedgerView, role: Role, tokens: Seq<i32>)
    requires
        l.wf(),
    ensures
        l.with_turn(role, tokens).without_last() == l,
{
    let after = l.with_turn(role, tokens);
    assert(after.turns.drop_last() =~= l.turns);
    assert(after.tokens.take(l.committed_pos) =~= l.tokens);
}

/// Room is counted in tokens: what is put into the cache is no longer free, what is taken out of it
/// is, and one position always stays free.
pub proof fn law_room_is_counted_in_tokens(l: LedgerView, role: Role, tokens: Seq<i32>, needed: int)
    ensures
        l.with_turn(role, tokens).fits(needed) <==> l.fits(tokens.len() + needed),
        l.fits(needed) ==> l.fits(needed - 1),
        !l.fits(l.n_ctx - l.committed_pos),
        l.fits(l.n_ctx - l.committed_pos - 1),
{
}

/// A turn that is put into the cache begins where the cache ended, and ends where it ends now.
pub proof fn law_where_a_turn_stands(l: LedgerView, role: Role, tokens: Seq<i32>)
    requires
        l.wf(),
        l.committed_pos + tokens.len() <= i32::MAX,
    ensures
        ({
            let after = l.with_turn(role, tokens);
            &&& after.wf() || l.turns.len() == 0
            &&& after.turns.len() == l.turns.len() + 1
            &&& after.turns.last().role == role
            &&& after.turns.last().start_pos == l.committed_pos
            &&& after.turns.last().end_pos == after.committed_pos
            &&& after.tokens.subrange(
                after.turns.last().start_pos as int,
                after.turns.last().end_pos as int,
            ) == tokens
            &&& forall|i: int| 0 <= i < l.turns.len() ==> #[trigger] after.turns[i] == l.turns[i]
            &&& after.n_ctx == l.n_ctx
            &&& after.overflow == l.overflow
            &&& after.protected_prefix == l.protected_prefix
        }),
{
    let after = l.with_turn(role, tokens);
    if l.turns.len() > 0 {
        assert forall|i: int, j: int| 0 <= i && j == i + 1 && j < after.turns.len() implies (
        #[trigger] after.turns[i]).end_pos == (#[trigger] after.turns[j]).start_pos by {
            assert(after.turns[i] == l.turns[i]);
            if j < l.turns.len() {
                assert(after.turns[j] == l.turns[j]);
            }
        }
        assert forall|i: int| 0 <= i < after.turns.len() implies 0 <= (#[trigger] after.turns[i]).start_pos
            <= after.turns[i].end_pos <= after.committed_pos by {
            if i < l.turns.len() {
                assert(after.turns[i] == l.turns[i]);
            }
        }
    }
}

/// A conversation that may not lose any history loses none: what does not fit is refused, and
/// everything is as it was.
pub proof fn law_no_history_is_lost_where_none_may_be(l: LedgerView, needed: int)
    requires
        l.overflow == OverflowPolicy::Fail,
    ensures
        room_for(l, needed).after == l,
        room_for(l, needed).shifts.len() == 0,
        room_for(l, needed).enough <==> l.committed_pos + needed < l.n_ctx,
{
}

/// No more is dropped than is needed: before each exchange that is dropped, there was not room
/// enough.
pub proof fn law_no_more_is_dropped_than_needed(l: LedgerView, needed: int, n: int)
    requires
        l.wf(),
        0 <= n < room_for(l, needed).shifts.len(),
    ensures
        after_shifts(l.tokens, room_for(l, needed).shifts.take(n)).len() + needed >= l.n_ctx,
    decreases n,
{
    let shifts = room_for(l, needed).shifts;
    if n > 0 {
        lemma_without_first(l);
        let next = l.without_first(l.drop_start());
        assert(shifts.skip(1) =~= room_for(next, needed).shifts);
        law_no_more_is_dropped_than_needed(next, needed, n - 1);
        assert(shifts.take(n).skip(1) =~= room_for(next, needed).shifts.take(n - 1));
        assert(shifts.take(n)[0] == shifts[0]);
        assert(next.tokens =~= l.tokens.take(shifts[0].start as int) + l.tokens.skip(
            shifts[0].end as int,
        ));
    } else {
        assert(shifts.take(0).len() == 0);
    }
}

/// An exchange is dropped from where it begins, or where the opening ends if that is later, up to
/// where the reply in it ends; the oldest exchange is dropped first.
pub proof fn law_exchanges_are_dropped_whole(l: LedgerView, needed: int)
    requires
        l.wf(),
        room_for(l, needed).shifts.len() > 0,
    ensures
        l.turns.len() >= 2,
        room_for(l, needed).shifts[0].end == l.turns[1].end_pos,
        room_for(l, needed).shifts[0].start >= l.turns[0].start_pos,
        room_for(l, needed).shifts[0].start >= l.protected_prefix,
        room_for(l, needed).shifts[0].start == l.turns[0].start_pos || room_for(
            l,
            needed,
        ).shifts[0].start == l.protected_prefix,
        room_for(l, needed).shifts[0].start < room_for(l, needed).shifts[0].end,
        room_for(l, needed).after.turns.len() + 2 * room_for(l, needed).shifts.len() <= l.turns.len(),
    decreases l.turns.len(),
{
    lemma_without_first(l);
    let next = l.without_first(l.drop_start());
    if room_for(next, needed).shifts.len() > 0 {
        law_exchanges_are_dropped_whole(next, needed);
    }
}

/// Every exchange takes up some room behind the opening.
pub open spec fn all_can_be_dropped(l: LedgerView) -> bool {
    &&& l.turns.len() > 0 ==> l.turns[0].start_pos >= l.protected_prefix
    &&& forall|i: int, j: int|
        0 <= i && j == i + 1 && j < l.turns.len() && i % 2 == 0 ==> (
        #[trigger] l.turns[i]).start_pos < (#[trigger] l.turns[j]).end_pos
}

/// Where every exchange can be dropped, they still can when the first of them was.
proof fn lemma_the_rest_can_be_dropped(l: LedgerView)
    requires
        l.wf(),
        whole(l.turns),
        l.turns.len() >= 2,
        all_can_be_dropped(l),
    ensures
        l.drop_start() == l.turns[0].start_pos,
        l.drop_start() < l.turns[1].end_pos,
        ({
            let next = l.without_first(l.drop_start());
            &&& whole(next.turns)
            &&& all_can_be_dropped(next)
            &&& next.turns.len() == l.turns.len() - 2
            &&& next.turns.len() > 0 ==> next.turns[0].start_pos == l.turns[0].start_pos
            &&& next.turns.len() == 0 ==> next.committed_pos == l.turns[0].start_pos
        }),
{
    assert(l.turns[0].start_pos < l.turns[1].end_pos);
    lemma_without_first(l);
    let next = l.without_first(l.drop_start());
    let by = l.turns[1].end_pos - l.turns[0].start_pos;
    assert forall|i: int| 0 <= i < next.turns.len() implies {
        &&& (#[trigger] next.turns[i]).role == l.turns[i + 2].role
        &&& next.turns[i].start_pos == l.turns[i + 2].start_pos - by
        &&& next.turns[i].end_pos == l.turns[i + 2].end_pos - by
    } by {
        assert(l.turns.skip(2)[i] == l.turns[i + 2]);
        assert(l.turns[i + 2].start_pos >= l.turns[1].end_pos);
        assert(l.turns[i + 2].end_pos >= l.turns[i + 2].start_pos);
    }
    assert forall|i: int, j: int|
        0 <= i && j == i + 1 && j < next.turns.len() && i % 2 == 0 implies (
    #[trigger] next.turns[i]).start_pos < (#[trigger] next.turns[j]).end_pos by {
        assert(l.turns[i + 2].start_pos < l.turns[j + 2].end_pos);
    }
    if next.turns.len() == 0 {
        assert(l.turns.last() == l.turns[1]);
    }
}

/// As much is dropped as it takes: where every exchange can be dropped, there is room in the end just
/// if there would be with nothing left but what stands before the first of them.
pub proof fn law_as_much_is_dropped_as_needed(l: LedgerView, needed: int)
    requires
        l.wf(),
        whole(l.turns),
        l.turns.len() > 0,
        all_can_be_dropped(l),
        l.overflow == OverflowPolicy::DropOldestTurns,
        needed >= 0,
    ensures
        room_for(l, needed).enough <==> l.turns[0].start_pos + needed < l.n_ctx,
    decreases l.turns.len(),
{
    assert(l.turns[0].start_pos <= l.committed_pos);
    if !l.fits(needed) {
        lemma_the_rest_can_be_dropped(l);
        lemma_without_first(l);
        let next = l.without_first(l.drop_start());
        if next.turns.len() > 0 {
            law_as_much_is_dropped_as_needed(next, needed);
        }
    }
}

/// Making room says why there is none: where nothing may be dropped, what was needed and what there
/// is; where it may, that there was nothing left to drop. What is left is in order either way.
pub proof fn law_what_making_room_answers(
    l: &mut Ledger,
    needed: i32,
    r: (Vec<KvShift>, Result<(), NoRoom>),
)
    requires
        call_ensures(Ledger::ensure_room_for, (l, needed), r),
        old(l)@.wf(),
    ensures
        r.1 is Ok ==> final(l)@.committed_pos + needed < final(l)@.n_ctx,
        old(l)@.committed_pos + needed < old(l)@.n_ctx ==> r.1 is Ok && final(l)@ == old(l)@
            && r.0@.len() == 0,
        r.1 is Err && old(l)@.overflow == OverflowPolicy::Fail ==> final(l)@ == old(l)@
            && r.1->Err_0 == (NoRoom::ContextFull {
            committed_pos: old(l).committed_pos,
            needed,
            n_ctx: old(l).n_ctx,
        }),
        r.1 is Err && old(l)@.overflow == OverflowPolicy::DropOldestTurns ==> r.1->Err_0
            is TooLargeToTrim,
        final(l)@.wf(),
        final(l)@.n_ctx == old(l)@.n_ctx,
        after_shifts(old(l)@.tokens, r.0@) == final(l)@.tokens,
{
    law_enough_room(old(l)@, needed as int);
    lemma_no_more_than_before(old(l)@, needed as int);
    law_the_cache_is_shifted_with_the_ledger(old(l)@, needed as int);
    if old(l)@.fits(needed as int) {
        law_nothing_dropped_where_it_fits(old(l)@, needed as int);
    }
}

/// A new cache is empty, of the size and the policy that it was made with.
pub proof fn law_how_a_ledger_begins(n_ctx: i32, overflow: OverflowPolicy, r: Ledger)
    requires
        call_ensures(Ledger::new, (n_ctx, overflow), r),
    ensures
        r@.n_ctx == n_ctx,
        r@.overflow == overflow,
        r@.committed_pos == 0,
        r@.tokens.len() == 0,
        r@.turns.len() == 0,
        r@.protected_prefix == 0,
{
}

} // verus!
