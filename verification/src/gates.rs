//! Review gates: a review in the browser that a command waits for.

use vstd::prelude::*;

use crate::error;
use crate::error::{invalid, not_found, other, Error, Failure};
use crate::ident;
use crate::laws;
use crate::model;
use crate::text;

verus! {

/// How long a gate stays open, in milliseconds.
pub const REVIEW_GATE_TTL: u64 = 1_800_000;

/// How a review ended.
#[derive(Clone, Copy, Debug, PartialEq, Eq, Structural)]
pub enum ReviewOutcome {
    Finished,
}

/// A review that is waited for.
#[derive(Debug)]
pub struct ReviewGate {
    pub token: String,
    pub artifact_uuid: String,
    pub expires_at: u64,
    pub outcome: Option<ReviewOutcome>,
}

/// The view of a review that is waited for.
#[verifier::ext_equal]
pub struct GateRow {
    pub token: Seq<char>,
    pub artifact_uuid: Seq<char>,
    pub expires_at: u64,
    pub outcome: Option<ReviewOutcome>,
}

impl View for ReviewGate {
    type V = GateRow;

    open spec fn view(&self) -> GateRow {
        GateRow {
            token: self.token@,
            artifact_uuid: self.artifact_uuid@,
            expires_at: self.expires_at,
            outcome: self.outcome,
        }
    }
}

/// The gates that were opened.
pub struct ReviewGates {
    gates: Vec<ReviewGate>,
}

impl View for ReviewGates {
    type V = Seq<GateRow>;

    closed spec fn view(&self) -> Seq<GateRow> {
        model::rows(self.gates@)
    }
}

/// The tokens of gates.
pub open spec fn tokens(gates: Seq<GateRow>) -> Seq<Seq<char>> {
    gates.map_values(|gate: GateRow| gate.token)
}

/// A gate has the token.
pub open spec fn has_gate(gates: Seq<GateRow>, token: Seq<char>) -> bool {
    exists|i: int| 0 <= i < gates.len() && #[trigger] gates[i].token == token
}

/// Which gate has the token.
pub open spec fn gate_index(gates: Seq<GateRow>, token: Seq<char>) -> int {
    choose|i: int| 0 <= i < gates.len() && #[trigger] gates[i].token == token
}

/// No two gates have the same token.
pub open spec fn gates_wf(gates: Seq<GateRow>) -> bool {
    tokens(gates).no_duplicates()
}

/// The gates that have not expired.
pub open spec fn live(gates: Seq<GateRow>, now: u64) -> Seq<GateRow> {
    gates.filter(|gate: GateRow| gate.expires_at > now)
}

/// A gate as it is opened.
pub open spec fn opened(token: Seq<char>, artifact_uuid: Seq<char>, now: u64) -> GateRow {
    GateRow {
        token,
        artifact_uuid,
        expires_at: (now + REVIEW_GATE_TTL) as u64,
        outcome: None,
    }
}

/// The review gate that a token opens.
pub open spec fn open_gate(gates: Seq<GateRow>, token: Seq<char>, now: u64) -> Result<
    int,
    Failure,
> {
    if has_gate(gates, token) && gates[gate_index(gates, token)].expires_at > now {
        Ok(gate_index(gates, token))
    } else {
        Err(Failure::NotFound("review gate not found or expired"@))
    }
}

/// The gates after a token was looked up: an expired gate is removed.
pub open spec fn looked_up(gates: Seq<GateRow>, token: Seq<char>, now: u64) -> Seq<GateRow> {
    if has_gate(gates, token) && gates[gate_index(gates, token)].expires_at <= now {
        gates.remove(gate_index(gates, token))
    } else {
        gates
    }
}

/// The gates after a review was finished.
pub open spec fn finish_gate(gates: Seq<GateRow>, token: Seq<char>, now: u64) -> Result<
    Seq<GateRow>,
    Failure,
> {
    match open_gate(gates, token, now) {
        Err(failure) => Err(failure),
        Ok(i) => if gates[i].outcome is Some {
            Err(Failure::Invalid("review gate has already been finished"@))
        } else {
            Ok(
                gates.update(
                    i,
                    GateRow { outcome: Some(ReviewOutcome::Finished), ..gates[i] },
                ),
            )
        },
    }
}

/// In a valid list a gate is found under its token.
proof fn gate_found(gates: Seq<GateRow>, i: int)
    requires
        gates_wf(gates),
        0 <= i < gates.len(),
    ensures
        has_gate(gates, gates[i].token),
        gate_index(gates, gates[i].token) == i,
{
    let k = gate_index(gates, gates[i].token);
    assert(gates[i].token == gates[i].token);
    assert(tokens(gates)[k] == tokens(gates)[i]);
}

proof fn removed_wf(gates: Seq<GateRow>, i: int)
    requires
        gates_wf(gates),
        0 <= i < gates.len(),
    ensures
        gates_wf(gates.remove(i)),
{
    let after = tokens(gates.remove(i));
    let before = tokens(gates);
    assert forall|a: int, b: int| 0 <= a < b < after.len() implies after[a] != after[b] by {
        let x = if a < i {
            a
        } else {
            a + 1
        };
        let y = if b < i {
            b
        } else {
            b + 1
        };
        assert(before[x] == after[a]);
        assert(before[y] == after[b]);
    }
}

proof fn updated_wf(gates: Seq<GateRow>, i: int, gate: GateRow)
    requires
        gates_wf(gates),
        0 <= i < gates.len(),
        gate.token == gates[i].token,
    ensures
        gates_wf(gates.update(i, gate)),
{
    assert(tokens(gates.update(i, gate)) =~= tokens(gates));
}

proof fn opened_wf(gates: Seq<GateRow>, gate: GateRow)
    requires
        gates_wf(gates),
        !has_gate(gates, gate.token),
    ensures
        gates_wf(gates.push(gate)),
{
    let after = tokens(gates.push(gate));
    assert forall|a: int, b: int| 0 <= a < b < after.len() implies after[a] != after[b] by {
        assert(tokens(gates)[a] == after[a]);
        assert(gates[a].token == after[a]);
        if b < gates.len() {
            assert(tokens(gates)[b] == after[b]);
        }
    }
}

/// No gate that is still open has expired.
proof fn live_is_live(gates: Seq<GateRow>, now: u64)
    ensures
        live(live(gates, now), now) == live(gates, now),
    decreases gates.len(),
{
    reveal(Seq::filter);
    if gates.len() > 0 {
        let front = gates.drop_last();
        live_is_live(front, now);
        if gates.last().expires_at > now {
            assert(live(gates, now).drop_last() =~= live(front, now));
        }
    }
}

/// What opening a gate comes to, for one of the tokens that could be drawn. A
/// token that is in use is not used again; that none was left is an error.
pub open spec fn gate_opened(
    before: Seq<GateRow>,
    artifact_uuid: Seq<char>,
    now: u64,
    token: Seq<char>,
    result: Result<String, Error>,
    after: Seq<GateRow>,
) -> bool {
    &&& token.len() == 48
    &&& match result {
        Ok(given) => given@ == token && !has_gate(live(before, now), token) && after == live(
            before,
            now,
        ).push(opened(token, artifact_uuid, now)),
        Err(error) => has_gate(live(before, now), token) && after == live(before, now) && error@
            == Failure::Other("no review gate token is left"@),
    }
}

impl Default for ReviewGates {
    fn default() -> (gates: Self)
        ensures
            gates@ == Seq::<GateRow>::empty(),
            gates_wf(gates@),
    {
        let gates = ReviewGates { gates: Vec::new() };
        assert(gates@ =~= Seq::<GateRow>::empty());
        gates
    }
}

impl ReviewGates {
    fn position(&self, token: &str) -> (found: Option<usize>)
        requires
            gates_wf(self@),
        ensures
            match found {
                Some(i) => i < self.gates@.len() && has_gate(self@, token@) && i == gate_index(
                    self@,
                    token@,
                ),
                None => !has_gate(self@, token@),
            },
    {
        for i in 0..self.gates.len()
            invariant
                gates_wf(self@),
                forall|j: int| 0 <= j < i ==> (#[trigger] self@[j]).token != token@,
        {
            assert(self@[i as int] == self.gates@[i as int]@);
            if text::same(self.gates[i].token.as_str(), token) {
                proof {
                    gate_found(self@, i as int);
                }
                return Some(i);
            }
        }
        None
    }

    fn drop_expired(&mut self, now: u64)
        requires
            gates_wf(old(self)@),
        ensures
            final(self)@ == live(old(self)@, now),
            gates_wf(final(self)@),
    {
        let ghost keep = |gate: GateRow| gate.expires_at > now;
        let ghost all = self@;
        let mut kept: Vec<ReviewGate> = Vec::new();
        assert(all.take(0).filter(keep) =~= Seq::empty()) by {
            reveal(Seq::filter);
        }
        for i in 0..self.gates.len()
            invariant
                all == self@,
                keep == (|gate: GateRow| gate.expires_at > now),
                model::rows(kept@) == all.take(i as int).filter(keep),
        {
            proof {
                laws::filter_step(all, keep, i as int);
            }
            assert(all[i as int] == self.gates@[i as int]@);
            let gate = &self.gates[i];
            if gate.expires_at > now {
                let ghost before = kept@;
                kept.push(
                    ReviewGate {
                        token: gate.token.clone(),
                        artifact_uuid: gate.artifact_uuid.clone(),
                        expires_at: gate.expires_at,
                        outcome: gate.outcome,
                    },
                );
                assert(model::rows(kept@) =~= model::rows(before).push(all[i as int]));
            }
        }
        assert(all.take(all.len() as int) =~= all);
        proof {
            laws::filter_keeps_distinct(all, keep, |gate: GateRow| gate.token);
        }
        self.gates = kept;
    }

    /// Opens a gate for the review of an artifact under a token, and forgets the
    /// expired ones. Nothing is opened where a gate that is still open has the token.
    pub fn create_with(&mut self, artifact_uuid: &str, token: String, now: u64) -> (result: Option<
        String,
    >)
        requires
            gates_wf(old(self)@),
            now + REVIEW_GATE_TTL <= u64::MAX,
        ensures
            gates_wf(final(self)@),
            has_gate(live(old(self)@, now), token@) ==> result is None && final(self)@ == live(
                old(self)@,
                now,
            ),
            !has_gate(live(old(self)@, now), token@) ==> text::optional(result) == Some(token@)
                && final(self)@ == live(old(self)@, now).push(
                opened(token@, artifact_uuid@, now),
            ),
    {
        self.drop_expired(now);
        let ghost kept = self@;
        if self.position(token.as_str()).is_some() {
            return None;
        }
        let gate = ReviewGate {
            token: token.clone(),
            artifact_uuid: artifact_uuid.to_owned(),
            expires_at: now + REVIEW_GATE_TTL,
            outcome: None,
        };
        proof {
            opened_wf(kept, gate@);
        }
        let ghost row = gate@;
        self.gates.push(gate);
        assert(self@ =~= kept.push(row));
        Some(token)
    }

    /// Opens a gate for the review of an artifact under a token that is drawn, and
    /// forgets the expired ones.
    pub fn create(&mut self, artifact_uuid: &str, now: u64) -> (result: Result<String, Error>)
        requires
            gates_wf(old(self)@),
            now + REVIEW_GATE_TTL <= u64::MAX,
        ensures
            gates_wf(final(self)@),
            live(old(self)@, now).len() == 0 ==> result is Ok,
            exists|token: Seq<char>| #[trigger]
                gate_opened(old(self)@, artifact_uuid@, now, token, result, final(self)@),
    {
        self.drop_expired(now);
        let ghost kept = self@;
        proof {
            live_is_live(old(self)@, now);
        }
        let mut left: u64 = u64::MAX;
        loop
            invariant
                kept == live(old(self)@, now),
                live(kept, now) == kept,
                self@ == kept,
                gates_wf(kept),
                now + REVIEW_GATE_TTL <= u64::MAX,
            decreases left,
        {
            let token = ident::random_token();
            let ghost drawn = token@;
            match self.create_with(artifact_uuid, token, now) {
                Some(token) => {
                    let result = Ok(token);
                    assert(gate_opened(old(self)@, artifact_uuid@, now, drawn, result, self@));
                    return result;
                },
                None => {
                    if left == 0 {
                        let result = Err(other("no review gate token is left".to_owned()));
                        assert(gate_opened(old(self)@, artifact_uuid@, now, drawn, result, self@));
                        return result;
                    }
                },
            }
            left = left - 1;
        }
    }

    fn open_position(&mut self, token: &str, now: u64) -> (found: Result<usize, Error>)
        requires
            gates_wf(old(self)@),
        ensures
            gates_wf(final(self)@),
            final(self)@ == looked_up(old(self)@, token@, now),
            match found {
                Ok(i) => i < final(self).gates@.len() && open_gate(old(self)@, token@, now) == Ok::<
                    int,
                    Failure,
                >(i as int),
                Err(error) => open_gate(old(self)@, token@, now) == Err::<int, Failure>(error@),
            },
    {
        match self.position(token) {
            None => Err(not_found("review gate not found or expired".to_owned())),
            Some(i) => {
                assert(self@[i as int] == self.gates@[i as int]@);
                if self.gates[i].expires_at <= now {
                    proof {
                        removed_wf(self@, i as int);
                    }
                    let _ = self.gates.remove(i);
                    assert(self@ =~= old(self)@.remove(i as int));
                    Err(not_found("review gate not found or expired".to_owned()))
                } else {
                    Ok(i)
                }
            },
        }
    }

    /// The artifact that the review gate is for.
    pub fn artifact_uuid(&mut self, token: &str, now: u64) -> (result: Result<String, Error>)
        requires
            gates_wf(old(self)@),
        ensures
            gates_wf(final(self)@),
            final(self)@ == looked_up(old(self)@, token@, now),
            error::viewed(result) == match open_gate(old(self)@, token@, now) {
                Ok(i) => Ok(old(self)@[i].artifact_uuid),
                Err(failure) => Err(failure),
            },
    {
        match self.open_position(token, now) {
            Err(error) => Err(error),
            Ok(i) => {
                assert(self@[i as int] == self.gates@[i as int]@);
                Ok(self.gates[i].artifact_uuid.clone())
            },
        }
    }

    /// Finishes the review.
    pub fn finish(&mut self, token: &str, now: u64) -> (result: Result<(), Error>)
        requires
            gates_wf(old(self)@),
        ensures
            gates_wf(final(self)@),
            match (finish_gate(old(self)@, token@, now), result) {
                (Ok(gates), Ok(())) => final(self)@ == gates,
                (Err(failure), Err(error)) => error@ == failure && final(self)@ == looked_up(
                    old(self)@,
                    token@,
                    now,
                ),
                _ => false,
            },
    {
        match self.open_position(token, now) {
            Err(error) => Err(error),
            Ok(i) => {
                assert(self@[i as int] == self.gates@[i as int]@);
                if self.gates[i].outcome.is_some() {
                    return Err(invalid("review gate has already been finished".to_owned()));
                }
                let gate = ReviewGate {
                    token: self.gates[i].token.clone(),
                    artifact_uuid: self.gates[i].artifact_uuid.clone(),
                    expires_at: self.gates[i].expires_at,
                    outcome: Some(ReviewOutcome::Finished),
                };
                proof {
                    updated_wf(self@, i as int, gate@);
                }
                let ghost before = self@;
                let ghost row = gate@;
                self.gates.set(i, gate);
                assert(self@ =~= before.update(i as int, row));
                Ok(())
            },
        }
    }

    /// How the review ended, if it did.
    pub fn outcome(&mut self, token: &str, now: u64) -> (result: Result<
        Option<ReviewOutcome>,
        Error,
    >)
        requires
            gates_wf(old(self)@),
        ensures
            gates_wf(final(self)@),
            final(self)@ == looked_up(old(self)@, token@, now),
            match (open_gate(old(self)@, token@, now), result) {
                (Ok(i), Ok(outcome)) => outcome == old(self)@[i].outcome,
                (Err(failure), Err(error)) => error@ == failure,
                _ => false,
            },
    {
        match self.open_position(token, now) {
            Err(error) => Err(error),
            Ok(i) => {
                assert(self@[i as int] == self.gates@[i as int]@);
                Ok(self.gates[i].outcome)
            },
        }
    }
}

// ---------------------------------------------------------------- laws

/// A gate that was opened is open, for its artifact and not finished, until its
/// time is over, and from then on is not.
pub proof fn gate_stays_open(
    gates: Seq<GateRow>,
    artifact_uuid: Seq<char>,
    opened_at: u64,
    token: Seq<char>,
    now: u64,
)
    requires
        gates_wf(gates),
        !has_gate(gates, token),
        opened_at + REVIEW_GATE_TTL <= u64::MAX,
    ensures
        ({
            let after = gates.push(opened(token, artifact_uuid, opened_at));
            let last = gates.len() as int;
            if now < opened_at + REVIEW_GATE_TTL {
                &&& open_gate(after, token, now) == Ok::<int, Failure>(last)
                &&& after[last].artifact_uuid == artifact_uuid
                &&& after[last].outcome is None
            } else {
                open_gate(after, token, now) == Err::<int, Failure>(
                    Failure::NotFound("review gate not found or expired"@),
                )
            }
        }),
{
    let gate = opened(token, artifact_uuid, opened_at);
    opened_wf(gates, gate);
    gate_found(gates.push(gate), gates.len() as int);
}

/// A review that was finished is seen to be, and cannot be finished again.
pub proof fn finish_happens_once(gates: Seq<GateRow>, token: Seq<char>, first: u64, second: u64)
    requires
        gates_wf(gates),
    ensures
        finish_gate(gates, token, first) matches Ok(after) ==> {
            &&& match open_gate(after, token, second) {
                Ok(i) => after[i].outcome == Some(ReviewOutcome::Finished)
                    && after[i].artifact_uuid == gates[i].artifact_uuid,
                Err(_) => open_gate(gates, token, second) is Err,
            }
            &&& finish_gate(after, token, second) is Err
        },
{
    if let Ok(after) = finish_gate(gates, token, first) {
        let i = gate_index(gates, token);
        gate_found(gates, i);
        updated_wf(gates, i, after[i]);
        gate_found(after, i);
    }
}

/// Finishing one review leaves the others as they are.
pub proof fn finish_leaves_others(gates: Seq<GateRow>, token: Seq<char>, now: u64, i: int)
    requires
        gates_wf(gates),
        0 <= i < gates.len(),
        gates[i].token != token,
    ensures
        finish_gate(gates, token, now) matches Ok(after) ==> after[i] == gates[i],
{
}

} // verus!
