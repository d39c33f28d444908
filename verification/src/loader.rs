//! The program loader: a left-to-right scan that skips whitespace, translates
//! each remaining byte into an instruction, and statically resolves every
//! loop-bracket pair to its partner's position in the instruction list.

use vstd::prelude::*;

use crate::command::{spec_command_of, spec_is_command, spec_is_whitespace, is_whitespace, Command,
    Error};

verus! {

/// The loader, one scan step at a time. `i` is the raw byte position reached so
/// far, `cmds` the instruction list built so far, and `pending` the stack of
/// positions (in `cmds`) of loop starts whose partner has not appeared yet.
///
/// On a `]` the innermost pending start is popped and the two are mutually
/// linked; a `]` with nothing pending, or a start still pending when the input
/// runs out, is an unmatched jump, reported at its position in `cmds`.
pub open spec fn spec_load_from(
    input: Seq<u8>,
    i: int,
    cmds: Seq<Command>,
    pending: Seq<int>,
) -> Result<Seq<Command>, Error>
    decreases input.len() - i,
{
    if i < 0 || i >= input.len() {
        if pending.len() > 0 {
            Err(Error::UnmatchedJump { index: pending.last() as usize })
        } else {
            Ok(cmds)
        }
    } else {
        let b = input[i];
        if spec_is_whitespace(b) {
            spec_load_from(input, i + 1, cmds, pending)
        } else {
            match spec_command_of(b) {
                None => Err(Error::InvalidCommand { index: i as usize, command: b }),
                Some(c) => match c {
                    Command::JmpStart(_) => spec_load_from(
                        input,
                        i + 1,
                        cmds.push(Command::JmpStart(0)),
                        pending.push(cmds.len() as int),
                    ),
                    Command::JmpEnd(_) => if pending.len() == 0 {
                        Err(Error::UnmatchedJump { index: cmds.len() as usize })
                    } else {
                        spec_load_from(
                            input,
                            i + 1,
                            cmds.update(pending.last(), Command::JmpStart(cmds.len() as usize)).push(
                                Command::JmpEnd(pending.last() as usize),
                            ),
                            pending.drop_last(),
                        )
                    },
                    _ => spec_load_from(input, i + 1, cmds.push(c), pending),
                },
            }
        }
    }
}

/// What loading a whole byte buffer yields: either the resolved instruction
/// list or the first structural failure of the scan.
pub open spec fn spec_load(input: Seq<u8>) -> Result<Seq<Command>, Error> {
    spec_load_from(input, 0, Seq::empty(), Seq::empty())
}

/// Position `i` of `cmds` is properly linked: a loop start points forward at a
/// loop end that points back at it, and a loop end points backward at a loop
/// start that points forward at it. Non-bracket instructions hold trivially.
pub open spec fn cmd_matched_at(cmds: Seq<Command>, i: int) -> bool {
    &&& (cmds[i] matches Command::JmpStart(t) ==> i < t < cmds.len() && cmds[t as int]
        == Command::JmpEnd(i as usize))
    &&& (cmds[i] matches Command::JmpEnd(t) ==> t < i && cmds[t as int] == Command::JmpStart(
        i as usize,
    ))
}

/// Every bracket in `cmds` is linked to a partner bracket, mutually.
pub open spec fn cmds_matched(cmds: Seq<Command>) -> bool {
    forall|i: int| 0 <= i < cmds.len() ==> #[trigger] cmd_matched_at(cmds, i)
}

/// The pending stack is shaped as the scan keeps it: positions inside `cmds`,
/// strictly increasing bottom to top, each still holding the placeholder
/// instruction a loop start is born with.
pub open spec fn pending_wf(cmds: Seq<Command>, pending: Seq<int>) -> bool {
    &&& forall|k: int| 0 <= k < pending.len() ==> 0 <= #[trigger] pending[k] < cmds.len()
    &&& forall|k1: int, k2: int|
        0 <= k1 < k2 < pending.len() ==> #[trigger] pending[k1] < #[trigger] pending[k2]
    &&& forall|k: int|
        0 <= k < pending.len() ==> cmds[#[trigger] pending[k]] == Command::JmpStart(0usize)
}

/// Position `i` is on the pending stack.
pub open spec fn in_pending(pending: Seq<int>, i: int) -> bool {
    exists|k: int| 0 <= k < pending.len() && pending[k] == i
}

/// Mid-scan shape of the instruction list: every position is properly linked
/// except those still waiting on the pending stack.
pub open spec fn partial_matched(cmds: Seq<Command>, pending: Seq<int>) -> bool {
    &&& pending_wf(cmds, pending)
    &&& forall|i: int|
        0 <= i < cmds.len() && !in_pending(pending, i) ==> #[trigger] cmd_matched_at(cmds, i)
}

proof fn lemma_partial_push_plain(cmds: Seq<Command>, pending: Seq<int>, c: Command)
    requires
        partial_matched(cmds, pending),
        !(c is JmpStart),
        !(c is JmpEnd),
    ensures
        partial_matched(cmds.push(c), pending),
{
    let cmds2 = cmds.push(c);
    assert forall|i: int| 0 <= i < cmds2.len() && !in_pending(pending, i) implies cmd_matched_at(
        cmds2,
        i,
    ) by {
        if i < cmds.len() {
            assert(cmd_matched_at(cmds, i));
        }
    }
}

proof fn lemma_partial_push_start(cmds: Seq<Command>, pending: Seq<int>)
    requires
        partial_matched(cmds, pending),
    ensures
        partial_matched(cmds.push(Command::JmpStart(0)), pending.push(cmds.len() as int)),
{
    let cmds2 = cmds.push(Command::JmpStart(0));
    let pending2 = pending.push(cmds.len() as int);
    assert forall|i: int| 0 <= i < cmds2.len() && !in_pending(pending2, i) implies cmd_matched_at(
        cmds2,
        i,
    ) by {
        assert(pending2[pending.len() as int] == cmds.len() as int);
        if i < cmds.len() {
            if in_pending(pending, i) {
                let k = choose|k: int| 0 <= k < pending.len() && pending[k] == i;
                assert(pending2[k] == i);
            }
            assert(!in_pending(pending, i));
            assert(cmd_matched_at(cmds, i));
        }
    }
}

proof fn lemma_partial_close(cmds: Seq<Command>, pending: Seq<int>)
    requires
        partial_matched(cmds, pending),
        pending.len() > 0,
        cmds.len() <= usize::MAX,
    ensures
        partial_matched(
            cmds.update(pending.last(), Command::JmpStart(cmds.len() as usize)).push(
                Command::JmpEnd(pending.last() as usize),
            ),
            pending.drop_last(),
        ),
{
    let j = pending.last();
    let n = cmds.len() as int;
    let cmds2 = cmds.update(j, Command::JmpStart(cmds.len() as usize)).push(
        Command::JmpEnd(pending.last() as usize),
    );
    let pending2 = pending.drop_last();
    assert(pending[pending.len() - 1] == j);
    assert(0 <= j < n);
    assert forall|k: int| 0 <= k < pending2.len() implies 0 <= #[trigger] pending2[k]
        < cmds2.len() by {
        assert(pending2[k] == pending[k]);
    }
    assert forall|k: int| 0 <= k < pending2.len() implies cmds2[#[trigger] pending2[k]]
        == Command::JmpStart(0usize) by {
        assert(pending2[k] == pending[k]);
        assert(pending[k] < j);
        assert(cmds[pending[k]] == Command::JmpStart(0usize));
    }
    assert forall|i: int| 0 <= i < cmds2.len() && !in_pending(pending2, i) implies cmd_matched_at(
        cmds2,
        i,
    ) by {
        if i == j {
            assert(cmds2[j] == Command::JmpStart(cmds.len() as usize));
            assert(cmds2[n] == Command::JmpEnd(j as usize));
        } else if i == n {
            assert(cmds2[n] == Command::JmpEnd(j as usize));
            assert(cmds2[j] == Command::JmpStart(cmds.len() as usize));
        } else {
            // i is an old position other than the start being closed.
            if in_pending(pending, i) {
                let k = choose|k: int| 0 <= k < pending.len() && pending[k] == i;
                assert(k < pending.len() - 1);
                assert(pending2[k] == i);
            }
            assert(!in_pending(pending, i));
            assert(cmd_matched_at(cmds, i));
            assert(cmds2[i] == cmds[i]);
            match cmds[i] {
                Command::JmpStart(t) => {
                    // Its partner is a loop end, so it is not the position
                    // being overwritten, which held a loop start.
                    assert(cmds[t as int] == Command::JmpEnd(i as usize));
                    assert(t != j);
                    assert(cmds2[t as int] == cmds[t as int]);
                },
                Command::JmpEnd(t) => {
                    // Its partner is a resolved loop start pointing back at a
                    // positive position, so it is not the pending placeholder.
                    assert(cmds[t as int] == Command::JmpStart(i as usize));
                    if t == j {
                        assert(cmds[j] == Command::JmpStart(0usize));
                        assert(i as usize == 0);
                        assert(t < i);
                        assert(false);
                    }
                    assert(cmds2[t as int] == cmds[t as int]);
                },
                _ => {},
            }
        }
    }
}

/// If the scan, resumed mid-way from a properly shaped intermediate state,
/// succeeds, then every bracket of the resulting instruction list is mutually
/// linked with its partner.
proof fn lemma_load_from_ok_matched(input: Seq<u8>, i: int, cmds: Seq<Command>, pending: Seq<int>)
    requires
        partial_matched(cmds, pending),
        cmds.len() + input.len() - i <= usize::MAX,
        spec_load_from(input, i, cmds, pending) is Ok,
    ensures
        cmds_matched(spec_load_from(input, i, cmds, pending)->Ok_0),
    decreases input.len() - i,
{
    if i < 0 || i >= input.len() {
        assert(pending.len() == 0);
        assert forall|p: int| 0 <= p < cmds.len() implies cmd_matched_at(cmds, p) by {
            assert(!in_pending(pending, p));
        }
    } else {
        let b = input[i];
        if spec_is_whitespace(b) {
            lemma_load_from_ok_matched(input, i + 1, cmds, pending);
        } else {
            match spec_command_of(b) {
                None => {},
                Some(c) => match c {
                    Command::JmpStart(_) => {
                        lemma_partial_push_start(cmds, pending);
                        lemma_load_from_ok_matched(
                            input,
                            i + 1,
                            cmds.push(Command::JmpStart(0)),
                            pending.push(cmds.len() as int),
                        );
                    },
                    Command::JmpEnd(_) => {
                        assert(pending.len() > 0);
                        lemma_partial_close(cmds, pending);
                        lemma_load_from_ok_matched(
                            input,
                            i + 1,
                            cmds.update(pending.last(), Command::JmpStart(cmds.len() as usize)).push(
                                Command::JmpEnd(pending.last() as usize),
                            ),
                            pending.drop_last(),
                        );
                    },
                    _ => {
                        lemma_partial_push_plain(cmds, pending, c);
                        lemma_load_from_ok_matched(input, i + 1, cmds.push(c), pending);
                    },
                },
            }
        }
    }
}

/// Whenever loading succeeds, the resolved instruction list has every bracket
/// mutually linked with its partner: matching is structural, each loop start
/// pointing at exactly the loop end that points back at it.
pub proof fn lemma_load_ok_matched(input: Seq<u8>)
    requires
        input.len() <= usize::MAX,
        spec_load(input) is Ok,
    ensures
        cmds_matched(spec_load(input)->Ok_0),
{
    lemma_load_from_ok_matched(input, 0, Seq::empty(), Seq::empty());
}

/// A resolved program: an ordered, immutable sequence of instructions,
/// produced exactly once by `load` and reusable across any number of runs.
#[derive(Debug, Clone)]
pub struct Program {
    commands: Vec<Command>,
}

impl View for Program {
    type V = Seq<Command>;

    closed spec fn view(&self) -> Seq<Command> {
        self.commands@
    }
}

/// The relation `load` establishes between its input and its result.
pub open spec fn loads_to(input: Seq<u8>, r: Result<Program, Error>) -> bool {
    match r {
        Ok(p) => spec_load(input) == Ok::<Seq<Command>, Error>(p@) && p.wf(),
        Err(e) => spec_load(input) == Err::<Seq<Command>, Error>(e),
    }
}

/// The view of a pending stack of positions.
pub open spec fn stack_ints(s: Seq<usize>) -> Seq<int> {
    s.map_values(|v: usize| v as int)
}

impl Program {
    /// Every bracket of the program is mutually linked with its partner.
    /// `load` establishes this for every program it returns.
    pub open spec fn wf(&self) -> bool {
        cmds_matched(self@)
    }

    /// The resolved instruction list.
    pub fn commands(&self) -> (r: &Vec<Command>)
        ensures
            r@ == self@,
    {
        &self.commands
    }

    /// Translates a raw byte buffer into a resolved program, or reports the
    /// first structural problem of the left-to-right scan: the offending byte
    /// and its offset for a byte outside the alphabet, or the position (in the
    /// resolved list) of a bracket with no partner. No partial program is ever
    /// returned.
    pub fn load(data: &[u8]) -> (r: Result<Program, Error>)
        ensures
            loads_to(data@, r),
    {
        let mut jump_stack: Vec<usize> = Vec::new();
        let mut commands: Vec<Command> = Vec::new();
        let n = data.len();
        let mut i: usize = 0;
        proof {
            assert(stack_ints(jump_stack@) =~= Seq::<int>::empty());
        }
        while i < n
            invariant
                n == data@.len(),
                i <= n,
                commands@.len() <= i,
                forall|k: int|
                    0 <= k < jump_stack@.len() ==> (#[trigger] jump_stack@[k]) < commands@.len(),
                spec_load(data@) == spec_load_from(
                    data@,
                    i as int,
                    commands@,
                    stack_ints(jump_stack@),
                ),
            decreases n - i,
        {
            let ghost cmds0 = commands@;
            let ghost pend0 = stack_ints(jump_stack@);
            let b = data[i];
            if !is_whitespace(b) {
                let cmd = match Command::from_byte(b) {
                    Ok(c) => c,
                    Err(mut e) => {
                        e.set_index(i);
                        return Err(e);
                    },
                };
                match cmd {
                    Command::JmpStart(_) => {
                        jump_stack.push(commands.len());
                        commands.push(Command::JmpStart(0));
                        proof {
                            assert(stack_ints(jump_stack@) =~= pend0.push(cmds0.len() as int));
                        }
                    },
                    Command::JmpEnd(_) => {
                        let idx = commands.len();
                        if jump_stack.len() == 0 {
                            return Err(Error::UnmatchedJump { index: idx });
                        }
                        let matching = jump_stack.pop().unwrap();
                        proof {
                            assert(pend0.last() == matching as int);
                            assert(stack_ints(jump_stack@) =~= pend0.drop_last());
                        }
                        commands.set(matching, Command::JmpStart(idx));
                        commands.push(Command::JmpEnd(matching));
                    },
                    c => {
                        commands.push(c);
                    },
                }
            }
            i += 1;
        }
        if jump_stack.len() > 0 {
            let unmatched = jump_stack[jump_stack.len() - 1];
            proof {
                assert(stack_ints(jump_stack@).last() == unmatched as int);
            }
            return Err(Error::UnmatchedJump { index: unmatched });
        }
        proof {
            assert(stack_ints(jump_stack@).len() == 0);
            lemma_load_ok_matched(data@);
        }
        Ok(Program { commands })
    }
}

/// Loading a single byte that is neither whitespace nor one of the eight
/// instruction characters fails with an invalid-command error at offset 0,
/// carrying that byte.
pub proof fn lemma_invalid_single_byte(b: u8)
    requires
        !spec_is_whitespace(b),
        !spec_is_command(b),
    ensures
        spec_load(seq![b]) == Err::<Seq<Command>, Error>(
            Error::InvalidCommand { index: 0, command: b },
        ),
{
    assert(seq![b][0] == b);
}

proof fn lemma_ws_load_from(input: Seq<u8>, i: int, cmds: Seq<Command>, pending: Seq<int>)
    requires
        forall|j: int| i <= j < input.len() ==> spec_is_whitespace(#[trigger] input[j]),
    ensures
        spec_load_from(input, i, cmds, pending) == spec_load_from(
            input,
            input.len() as int,
            cmds,
            pending,
        ),
    decreases input.len() - i,
{
    if 0 <= i < input.len() {
        lemma_ws_load_from(input, i + 1, cmds, pending);
    }
}

/// Loading an input consisting solely of whitespace succeeds and yields an
/// empty program.
pub proof fn lemma_whitespace_loads_empty(input: Seq<u8>)
    requires
        forall|i: int| 0 <= i < input.len() ==> spec_is_whitespace(#[trigger] input[i]),
    ensures
        spec_load(input) == Ok::<Seq<Command>, Error>(Seq::empty()),
{
    lemma_ws_load_from(input, 0, Seq::empty(), Seq::empty());
}

proof fn lemma_unmatched_end_from(input: Seq<u8>, i: int, k: int)
    requires
        0 <= i <= k < input.len(),
        input[k] == 93,
        forall|j: int| i <= j < k ==> spec_is_whitespace(#[trigger] input[j]),
    ensures
        spec_load_from(input, i, Seq::empty(), Seq::empty()) == Err::<Seq<Command>, Error>(
            Error::UnmatchedJump { index: 0 },
        ),
    decreases k - i,
{
    if i < k {
        lemma_unmatched_end_from(input, i + 1, k);
    }
}

/// A loop end whose only predecessors in the input are whitespace has nothing
/// to pop: loading fails with an unmatched jump at resolved position 0.
pub proof fn lemma_unmatched_end(input: Seq<u8>, k: int)
    requires
        0 <= k < input.len(),
        input[k] == 93,
        forall|j: int| 0 <= j < k ==> spec_is_whitespace(#[trigger] input[j]),
    ensures
        spec_load(input) == Err::<Seq<Command>, Error>(Error::UnmatchedJump { index: 0 }),
{
    lemma_unmatched_end_from(input, 0, k);
}

proof fn lemma_no_end_from(input: Seq<u8>, i: int, cmds: Seq<Command>, pending: Seq<int>)
    requires
        i >= 0,
        forall|j: int|
            i <= j < input.len() ==> spec_is_whitespace(#[trigger] input[j]) || spec_is_command(
                input[j],
            ),
        forall|j: int| i <= j < input.len() ==> #[trigger] input[j] != 93,
        pending.len() > 0 || exists|j: int| i <= j < input.len() && #[trigger] input[j] == 91,
    ensures
        spec_load_from(input, i, cmds, pending) matches Err(e) && e is UnmatchedJump,
    decreases input.len() - i,
{
    if i < 0 || i >= input.len() {
        assert(pending.len() > 0);
    } else {
        let b = input[i];
        if pending.len() == 0 {
            let w = choose|j: int| i <= j < input.len() && #[trigger] input[j] == 91;
            if w > i {
                assert(exists|j: int|
                    i + 1 <= j < input.len() && #[trigger] input[j] == 91) by {
                    assert(input[w] == 91);
                }
            }
        }
        if spec_is_whitespace(b) {
            lemma_no_end_from(input, i + 1, cmds, pending);
        } else {
            match spec_command_of(b) {
                None => {
                    assert(false);
                },
                Some(c) => match c {
                    Command::JmpStart(_) => {
                        lemma_no_end_from(
                            input,
                            i + 1,
                            cmds.push(Command::JmpStart(0)),
                            pending.push(cmds.len() as int),
                        );
                    },
                    Command::JmpEnd(_) => {
                        assert(b == 93);
                        assert(false);
                    },
                    _ => {
                        lemma_no_end_from(input, i + 1, cmds.push(c), pending);
                    },
                },
            }
        }
    }
}

/// A loop start with no loop end anywhere after it cannot be matched: an input
/// made of whitespace and instruction characters that contains a `[` but no
/// `]` fails to load with an unmatched jump.
pub proof fn lemma_unmatched_start(input: Seq<u8>)
    requires
        forall|j: int|
            0 <= j < input.len() ==> spec_is_whitespace(#[trigger] input[j]) || spec_is_command(
                input[j],
            ),
        forall|j: int| 0 <= j < input.len() ==> #[trigger] input[j] != 93,
        exists|j: int| 0 <= j < input.len() && #[trigger] input[j] == 91,
    ensures
        spec_load(input) matches Err(e) && e is UnmatchedJump,
{
    lemma_no_end_from(input, 0, Seq::empty(), Seq::empty());
}

/// Loading is a pure function of the byte buffer: two loads of the same buffer
/// yield identical resolved instruction lists, or identical errors.
pub proof fn lemma_load_idempotent(
    input: Seq<u8>,
    r1: Result<Program, Error>,
    r2: Result<Program, Error>,
)
    requires
        loads_to(input, r1),
        loads_to(input, r2),
    ensures
        match (r1, r2) {
            (Ok(p1), Ok(p2)) => p1@ == p2@,
            (Err(e1), Err(e2)) => e1 == e2,
            _ => false,
        },
{
}

} // verus!
