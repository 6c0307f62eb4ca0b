//! Objective checks and path-level deduplication.
//!
//! Every completed run has a path id.  An objective check may only fire
//! the first time an id is seen process-wide: each check tests and inserts
//! against one shared set, so one id satisfies at most one check, and a
//! fired check records the run's provenance first-writer-wins.

use crate::coverage::ExitKind;
use crate::state::{input_view, AptosFuzzerInput, AptosFuzzerState};
use vstd::prelude::*;

verus! {

use vstd::string::StringExecFns;

/// When the abort-code objective fires: the run crashed, or it ended in an
/// abort whose code the allow-list admits (an empty list admits every
/// code), and in either case the run's path id is new.  A run with no
/// cached path id is never deduplicated.
pub open spec fn abort_interesting(
    seen: Set<u64>,
    current: Option<u64>,
    codes: Seq<u64>,
    exit_kind: ExitKind,
    abort_code: Option<u64>,
) -> bool {
    let fresh = match current {
        Some(id) => !seen.contains(id),
        None => true,
    };
    if exit_kind == ExitKind::Crash {
        fresh
    } else {
        match abort_code {
            Some(c) => (codes.len() == 0 || codes.contains(c)) && fresh,
            None => false,
        }
    }
}

/// When the shift-overflow objective fires: the run set the overflow flag
/// and its path id is new.
pub open spec fn shift_interesting(seen: Set<u64>, current: Option<u64>, cause_loss: bool)
    -> bool {
    let fresh = match current {
        Some(id) => !seen.contains(id),
        None => true,
    };
    cause_loss && fresh
}

/// Dedup monotonicity: once a path id stands in the seen set, no objective
/// check against that id is interesting again — whatever the exit kind,
/// the abort code, the allow-list or the overflow flag.
pub proof fn lemma_dedup_monotone(
    seen: Set<u64>,
    id: u64,
    codes: Seq<u64>,
    exit_kind: ExitKind,
    abort_code: Option<u64>,
    cause_loss: bool,
)
    requires
        seen.contains(id),
    ensures
        !abort_interesting(seen, Some(id), codes, exit_kind, abort_code),
        !shift_interesting(seen, Some(id), cause_loss),
{
}

/// Objective: aborts with chosen codes, and outright crashes.
#[derive(Debug)]
pub struct AbortCodeObjective {
    pub target_abort_codes: Vec<u64>,
    pub name: String,
}

impl AbortCodeObjective {
    /// An objective that admits every abort code.
    pub fn new() -> (r: AbortCodeObjective)
        ensures
            r.target_abort_codes@.len() == 0,
            r.name@ == "AbortCodeObjective"@,
    {
        AbortCodeObjective {
            target_abort_codes: Vec::new(),
            name: String::from_str("AbortCodeObjective"),
        }
    }

    /// An objective that admits only the given abort codes.
    pub fn with_target_codes(codes: &Vec<u64>) -> (r: AbortCodeObjective)
        ensures
            r.target_abort_codes@ == codes@,
            r.name@ == "AbortCodeObjective"@,
    {
        let mut own: Vec<u64> = Vec::new();
        let mut i: usize = 0;
        while i < codes.len()
            invariant
                i <= codes@.len(),
                own@ =~= codes@.take(i as int),
            decreases codes@.len() - i,
        {
            own.push(codes[i]);
            i = i + 1;
        }
        proof {
            assert(own@ =~= codes@);
        }
        AbortCodeObjective { target_abort_codes: own, name: String::from_str("AbortCodeObjective") }
    }

    /// An objective that admits every abort code, under another name.
    pub fn with_name(name: &'static str) -> (r: AbortCodeObjective)
        ensures
            r.target_abort_codes@.len() == 0,
            r.name@ == name@,
    {
        AbortCodeObjective { target_abort_codes: Vec::new(), name: String::from_str(name) }
    }

    /// Decide whether the finished run satisfies this objective, consuming
    /// the shared dedup slot for its path id if it was checked, and
    /// recording provenance when it fires.
    #[verifier::loop_isolation(false)]
    pub fn is_interesting(
        &self,
        state: &mut AptosFuzzerState,
        input: &AptosFuzzerInput,
        exit_kind: ExitKind,
        abort_code: Option<u64>,
    ) -> (r: bool)
        requires
            old(state).inv(),
        ensures
            final(state).inv(),
            r == abort_interesting(
                old(state).seen_execution_paths@,
                old(state).current_execution_path_id,
                self.target_abort_codes@,
                exit_kind,
                abort_code,
            ),
            final(state).current_execution_path_id == old(state).current_execution_path_id,
            final(state).current_execution_path == old(state).current_execution_path,
            final(state).same_session_rest(*old(state)),
            final(state).shift_overflow_paths@ == old(state).shift_overflow_paths@,
            ({
                let checked = exit_kind == ExitKind::Crash || (abort_code matches Some(c)
                    && (self.target_abort_codes@.len() == 0 || self.target_abort_codes@.contains(
                    c,
                )));
                if checked && old(state).current_execution_path_id is Some {
                    final(state).seen_execution_paths@ == old(
                        state,
                    ).seen_execution_paths@.insert(old(state).current_execution_path_id->0)
                } else {
                    final(state).seen_execution_paths@ == old(state).seen_execution_paths@
                }
            }),
            (if r && exit_kind != ExitKind::Crash && old(state).current_execution_path_id
                is Some {
                final(state).abort_code_paths@ == old(state).abort_code_paths@.insert(
                    old(state).current_execution_path_id->0,
                )
            } else {
                final(state).abort_code_paths@ == old(state).abort_code_paths@
            }),
            (if r && old(state).current_execution_path_id is Some {
                crate::state::provenance_post(
                    old(state).execution_paths@,
                    final(state).execution_paths@,
                    old(state).current_execution_path_id,
                    old(state).current_execution_path,
                    input_view(*input),
                )
            } else {
                final(state).execution_paths@ == old(state).execution_paths@
            }),
    {
        if matches!(exit_kind, ExitKind::Crash) {
            let current = state.current_execution_path_id();
            match current {
                Some(path_id) => {
                    if !state.mark_execution_path_seen(path_id) {
                        return false;
                    }
                    let _ = state.record_current_execution_path_for(input);
                    true
                },
                None => true,
            }
        } else {
            let code_opt = abort_code;
            match code_opt {
                Some(code) => {
                    let mut admits = self.target_abort_codes.len() == 0;
                    let mut i: usize = 0;
                    while i < self.target_abort_codes.len()
                        invariant
                            i <= self.target_abort_codes@.len(),
                            admits == (self.target_abort_codes@.len() == 0 || exists|j: int|
                                0 <= j < i && self.target_abort_codes@[j] == code),
                        decreases self.target_abort_codes@.len() - i,
                    {
                        if self.target_abort_codes[i] == code {
                            admits = true;
                        }
                        i = i + 1;
                    }
                    proof {
                        if admits && self.target_abort_codes@.len() > 0 {
                            let j = choose|j: int|
                                0 <= j < self.target_abort_codes@.len()
                                    && self.target_abort_codes@[j] == code;
                            assert(self.target_abort_codes@.contains(code));
                        }
                        if self.target_abort_codes@.contains(code) {
                            let j = choose|j: int|
                                0 <= j < self.target_abort_codes@.len()
                                    && self.target_abort_codes@[j] == code;
                            assert(exists|j2: int|
                                0 <= j2 < self.target_abort_codes@.len()
                                    && self.target_abort_codes@[j2] == code);
                        }
                    }
                    if !admits {
                        return false;
                    }
                    let current = state.current_execution_path_id();
                    match current {
                        Some(path_id) => {
                            if !state.mark_execution_path_seen(path_id) {
                                return false;
                            }
                            let _ = state.abort_code_paths.insert(path_id);
                            let _ = state.record_current_execution_path_for(input);
                            true
                        },
                        None => true,
                    }
                },
                None => false,
            }
        }
    }
}

/// Objective: a shift that lost high bits.
#[derive(Debug)]
pub struct ShiftOverflowObjective {
    pub name: String,
}

impl ShiftOverflowObjective {
    /// The shift-overflow objective.
    pub fn new() -> (r: ShiftOverflowObjective)
        ensures
            r.name@ == "ShiftOverflowObjective"@,
    {
        ShiftOverflowObjective { name: String::from_str("ShiftOverflowObjective") }
    }

    /// Decide whether the finished run satisfies this objective, consuming
    /// the shared dedup slot for its path id if it was checked.
    pub fn is_interesting(
        &self,
        state: &mut AptosFuzzerState,
        input: &AptosFuzzerInput,
        cause_loss: bool,
    ) -> (r: bool)
        requires
            old(state).inv(),
        ensures
            final(state).inv(),
            r == shift_interesting(
                old(state).seen_execution_paths@,
                old(state).current_execution_path_id,
                cause_loss,
            ),
            final(state).current_execution_path_id == old(state).current_execution_path_id,
            final(state).current_execution_path == old(state).current_execution_path,
            final(state).same_session_rest(*old(state)),
            final(state).abort_code_paths@ == old(state).abort_code_paths@,
            (if cause_loss && old(state).current_execution_path_id is Some {
                final(state).seen_execution_paths@ == old(state).seen_execution_paths@.insert(
                    old(state).current_execution_path_id->0,
                )
            } else {
                final(state).seen_execution_paths@ == old(state).seen_execution_paths@
            }),
            (if r && old(state).current_execution_path_id is Some {
                final(state).shift_overflow_paths@ == old(state).shift_overflow_paths@.insert(
                    old(state).current_execution_path_id->0,
                )
            } else {
                final(state).shift_overflow_paths@ == old(state).shift_overflow_paths@
            }),
            (if r && old(state).current_execution_path_id is Some {
                crate::state::provenance_post(
                    old(state).execution_paths@,
                    final(state).execution_paths@,
                    old(state).current_execution_path_id,
                    old(state).current_execution_path,
                    input_view(*input),
                )
            } else {
                final(state).execution_paths@ == old(state).execution_paths@
            }),
    {
        if cause_loss {
            let current = state.current_execution_path_id();
            match current {
                Some(path_id) => {
                    if !state.mark_execution_path_seen(path_id) {
                        return false;
                    }
                    let _ = state.shift_overflow_paths.insert(path_id);
                    let _ = state.record_current_execution_path_for(input);
                    true
                },
                None => true,
            }
        } else {
            false
        }
    }
}

} // verus!
