use vstd::prelude::*;
use crate::input_provider::{bytes_at, one_chunk, readable, ChunkedInput};
use crate::strings::{utf8_of, BuildString};
use crate::tree_spec::{NodeId, Spec, ValueType};
use crate::walker::{
    accepted, key_refused, path_entry_eq, FailureKind, ParseFailure, PathEntry, PathTracker,
};

verus! {

/// A decoded value.
#[derive(Debug)]
pub enum Value {
    Null,
    Bool(bool),
    /// The number's text, as it stands in the input.
    Number(Vec<u8>),
    Str(Vec<u8>),
    Array(Vec<Value>),
    /// Key/value pairs; a repeated key keeps its first place and its last value.
    Object(Vec<(Vec<u8>, Value)>),
    /// Stands where a value was emitted as a yield.
    Streamed,
}

/// A value emitted eagerly, with the path where it completed.
#[derive(Debug)]
pub struct Yield {
    pub path: Vec<PathEntry>,
    pub value: Value,
}

/// Why the byte source stopped the grammar engine for now.
#[derive(Debug, Copy, Clone, PartialEq, Eq, Structural)]
pub enum BailType {
    /// The step budget of this slice is spent.
    Reschedule,
    /// The next byte has not been supplied yet.
    AwaitInput,
}

/// What the byte source answers to a peek.
#[derive(Debug, Copy, Clone, PartialEq, Eq, Structural)]
pub enum PeekResult {
    Byte(u8),
    Eof,
    Bail(BailType),
}

/// The state of a session that survives suspension.
#[derive(Debug, Clone)]
pub struct SSState {
    pub path_tracker: PathTracker,
    pub position: usize,
    pub first_needed: usize,
    pub current_string: BuildString,
}

impl SSState {
    /// A fresh state at the start of a document, walking `spec`.
    pub fn new(spec: Spec) -> (r: SSState)
        requires
            spec.wf(),
        ensures
            r.path_tracker.wf(),
            r.path_tracker.spec_of() == spec,
            r.path_tracker.frames().len() == 0,
            r.position == 0,
            r.first_needed == 0,
            r.current_string is Empty,
    {
        SSState {
            path_tracker: PathTracker::new(spec),
            position: 0,
            first_needed: 0,
            current_string: BuildString::new(),
        }
    }
}

/// The answer to a peek at `pos`, without a step budget.
pub open spec fn unbudgeted_peek(input: ChunkedInput, end_of_input: bool, pos: int) -> PeekResult {
    match input.byte_spec(pos) {
        Some(b) => PeekResult::Byte(b),
        None => if end_of_input {
            PeekResult::Eof
        } else {
            PeekResult::Bail(BailType::AwaitInput)
        },
    }
}

/// The answer to a peek at `pos` when the budget runs out at `next_reschedule`.
pub open spec fn budgeted_peek(
    input: ChunkedInput,
    end_of_input: bool,
    pos: int,
    next_reschedule: int,
) -> PeekResult {
    if pos == next_reschedule {
        PeekResult::Bail(BailType::Reschedule)
    } else {
        unbudgeted_peek(input, end_of_input, pos)
    }
}

/// Two step budgets never make a read differ, except that one of them suspends
/// for rescheduling: the budget changes only when the engine is suspended.
pub proof fn lemma_budget_only_suspends(
    input: ChunkedInput,
    end_of_input: bool,
    pos: int,
    budget_a: int,
    budget_b: int,
)
    ensures
        budgeted_peek(input, end_of_input, pos, budget_a) == budgeted_peek(
            input,
            end_of_input,
            pos,
            budget_b,
        ) || budgeted_peek(input, end_of_input, pos, budget_a) == PeekResult::Bail(
            BailType::Reschedule,
        ) || budgeted_peek(input, end_of_input, pos, budget_b) == PeekResult::Bail(
            BailType::Reschedule,
        ),
        budgeted_peek(input, end_of_input, pos, budget_a) != PeekResult::Bail(BailType::Reschedule)
            ==> budgeted_peek(input, end_of_input, pos, budget_a) == unbudgeted_peek(
            input,
            end_of_input,
            pos,
        ),
{
}

/// Dropping input below the watermark changes nothing that a callback can see:
/// if two inputs agree from `first_needed` on, a sink over either one peeks the
/// same at its position, reads the same bytes in every range that starts at or
/// after the watermark (the only ranges callbacks may read), and holds the same
/// string under construction.
pub proof fn lemma_retired_input_reads_same(a: StreamingSS, b: StreamingSS, start: int, end: int)
    requires
        a.wf(),
        b.state == a.state,
        b.end_of_input == a.end_of_input,
        b.next_reschedule == a.next_reschedule,
        forall|p: int| p >= a.state.first_needed ==> #[trigger] b.input.byte_spec(p) == a.input.byte_spec(p),
        a.state.first_needed <= start <= end,
    ensures
        b.input.wf() ==> b.wf(),
        budgeted_peek(b.input, b.end_of_input, b.state.position as int, b.next_reschedule as int)
            == budgeted_peek(a.input, a.end_of_input, a.state.position as int, a.next_reschedule as int),
        readable(b.input.chunks(), start, end) == readable(a.input.chunks(), start, end),
        bytes_at(b.input.chunks(), start, end) == bytes_at(a.input.chunks(), start, end),
        b.state.current_string.content(b.input) == a.state.current_string.content(a.input),
{
    assert(b.input.byte_spec(a.state.position as int) == a.input.byte_spec(a.state.position as int));
    assert forall|p: int| start <= p < end implies #[trigger] crate::input_provider::byte_at(
        b.input.chunks(),
        p,
    ) == crate::input_provider::byte_at(a.input.chunks(), p) by {
        assert(b.input.byte_spec(p) == a.input.byte_spec(p));
    }
    assert(bytes_at(b.input.chunks(), start, end) =~= bytes_at(a.input.chunks(), start, end));
    if readable(a.input.chunks(), start, end) {
        assert forall|p: int| start <= p < end implies (#[trigger] crate::input_provider::byte_at(
            b.input.chunks(),
            p,
        )) is Some by {
            assert(crate::input_provider::byte_at(a.input.chunks(), p) is Some);
        }
    }
    if readable(b.input.chunks(), start, end) {
        assert forall|p: int| start <= p < end implies (#[trigger] crate::input_provider::byte_at(
            a.input.chunks(),
            p,
        )) is Some by {
            assert(crate::input_provider::byte_at(b.input.chunks(), p) is Some);
        }
    }
    if let BuildString::Range(s, e) = a.state.current_string {
        assert forall|p: int| s <= p < e implies #[trigger] crate::input_provider::byte_at(
            b.input.chunks(),
            p,
        ) == crate::input_provider::byte_at(a.input.chunks(), p) by {
            assert(b.input.byte_spec(p) == a.input.byte_spec(p));
        }
        assert(bytes_at(b.input.chunks(), s as int, e as int) =~= bytes_at(
            a.input.chunks(),
            s as int,
            e as int,
        ));
        assert forall|p: int| s <= p < e implies (#[trigger] crate::input_provider::byte_at(
            b.input.chunks(),
            p,
        )) is Some by {
            assert(b.input.byte_spec(p) == a.input.byte_spec(p));
        }
    }
}

/// Last-write-wins insertion of `k => v` into a list of pairs.
pub open spec fn put(entries: Seq<(Vec<u8>, Value)>, k: Vec<u8>, v: Value) -> Seq<(Vec<u8>, Value)> {
    if exists|j: int| 0 <= j < entries.len() && (#[trigger] entries[j]).0@ == k@ {
        let j = choose|j: int|
            0 <= j < entries.len() && (#[trigger] entries[j]).0@ == k@ && forall|l: int|
                0 <= l < j ==> (#[trigger] entries[l]).0@ != k@;
        entries.update(j, (k, v))
    } else {
        entries.push((k, v))
    }
}

/// The sink and byte source that the grammar engine drives.
#[derive(Debug)]
pub struct StreamingSS {
    pub input: ChunkedInput,
    /// No byte will be added past the chunks held: a missing byte is the end.
    pub end_of_input: bool,
    pub next_reschedule: usize,
    pub out_stack: Vec<Value>,
    pub state: SSState,
    pub yields: Vec<Yield>,
}

impl StreamingSS {
    pub open spec fn wf(&self) -> bool {
        &&& self.input.wf()
        &&& self.state.path_tracker.wf()
        &&& self.state.current_string.wf_for(self.input)
        &&& self.state.first_needed <= self.state.position
        &&& self.state.current_string matches BuildString::Range(s, _) ==> s >= self.state.first_needed
    }

    /// Whether `node` asks for its values to be emitted.
    pub open spec fn streams(&self, node: Option<NodeId>) -> bool {
        node matches Some(n) && self.state.path_tracker.spec_of().nodes()[n.idx()].options.stream
    }

    /// A sink over `input` that resumes `state`, allowed `budget` position steps.
    pub fn new(state: SSState, input: ChunkedInput, end_of_input: bool, budget: usize, out_stack: Vec<Value>) -> (r: StreamingSS)
        ensures
            r.state == state,
            r.input == input,
            r.end_of_input == end_of_input,
            r.out_stack == out_stack,
            r.yields@.len() == 0,
            r.next_reschedule == if state.position <= usize::MAX - budget {
                (state.position + budget) as usize
            } else {
                usize::MAX
            },
    {
        let next = if state.position <= usize::MAX - budget {
            state.position + budget
        } else {
            usize::MAX
        };
        StreamingSS { input, end_of_input, next_reschedule: next, out_stack, state, yields: Vec::new() }
    }

    pub fn position(&self) -> (r: usize)
        ensures
            r == self.state.position,
    {
        self.state.position
    }

    pub fn skip(&mut self, num: usize)
        requires
            old(self).state.position + num <= usize::MAX,
        ensures
            final(self).state.position == old(self).state.position + num,
            final(self).state.path_tracker == old(self).state.path_tracker,
            final(self).state.first_needed == old(self).state.first_needed,
            final(self).state.current_string == old(self).state.current_string,
            final(self).input == old(self).input,
            final(self).end_of_input == old(self).end_of_input,
            final(self).next_reschedule == old(self).next_reschedule,
            final(self).out_stack == old(self).out_stack,
            final(self).yields == old(self).yields,
    {
        self.state.position = self.state.position + num;
    }

    /// The byte at the current position, or why there is none now.
    pub fn peek_char(&self) -> (r: PeekResult)
        ensures
            r == budgeted_peek(
                self.input,
                self.end_of_input,
                self.state.position as int,
                self.next_reschedule as int,
            ),
    {
        if self.state.position == self.next_reschedule {
            PeekResult::Bail(BailType::Reschedule)
        } else {
            match self.input.byte(self.state.position) {
                Some(b) => PeekResult::Byte(b),
                None => if self.end_of_input {
                    PeekResult::Eof
                } else {
                    PeekResult::Bail(BailType::AwaitInput)
                },
            }
        }
    }
}


/// The first byte that is still needed once a value completes: the current
/// position, or the start of a string under construction that borrows earlier bytes.
pub open spec fn needed_from(st: SSState) -> usize {
    match st.current_string {
        BuildString::Range(s, _) => if s < st.position {
            s
        } else {
            st.position
        },
        _ => st.position,
    }
}

/// Two sinks read the same input from the same position under the same budget.
pub open spec fn same_source(a: StreamingSS, b: StreamingSS) -> bool {
    &&& a.input == b.input
    &&& a.end_of_input == b.end_of_input
    &&& a.next_reschedule == b.next_reschedule
    &&& a.state.position == b.state.position
}

/// Path steps that show the entries of the open frames.
pub open spec fn path_matches(path: Seq<PathEntry>, frames: Seq<crate::walker::Frame>) -> bool {
    &&& path.len() == frames.len()
    &&& forall|i: int| 0 <= i < path.len() ==> path_entry_eq(#[trigger] path[i], frames[i].entry)
}

/// The value on top of `old_stack` was emitted (if `streamed`) or left in place.
pub open spec fn top_done(
    old_stack: Seq<Value>,
    old_yields: Seq<Yield>,
    stack: Seq<Value>,
    yields: Seq<Yield>,
    frames: Seq<crate::walker::Frame>,
    streamed: bool,
) -> bool {
    if streamed {
        &&& stack == old_stack.drop_last().push(Value::Streamed)
        &&& yields.len() == old_yields.len() + 1
        &&& yields.drop_last() == old_yields
        &&& yields.last().value == old_stack.last()
        &&& path_matches(yields.last().path@, frames)
    } else {
        stack == old_stack && yields == old_yields
    }
}

/// A scalar that `is_value` describes completed: emitted (if `streamed`) or pushed.
pub open spec fn scalar_done(
    old_stack: Seq<Value>,
    old_yields: Seq<Yield>,
    stack: Seq<Value>,
    yields: Seq<Yield>,
    frames: Seq<crate::walker::Frame>,
    streamed: bool,
    is_value: spec_fn(Value) -> bool,
) -> bool {
    if streamed {
        &&& stack == old_stack.push(Value::Streamed)
        &&& yields.len() == old_yields.len() + 1
        &&& yields.drop_last() == old_yields
        &&& is_value(yields.last().value)
        &&& path_matches(yields.last().path@, frames)
    } else {
        &&& stack.len() == old_stack.len() + 1
        &&& stack.drop_last() == old_stack
        &&& is_value(stack.last())
        &&& yields == old_yields
    }
}

impl StreamingSS {
    /// Emits the value on top of the stack as a yield when `node` streams,
    /// leaving a placeholder in its place.
    fn do_stream(&mut self, node: Option<NodeId>)
        requires
            old(self).wf(),
            old(self).out_stack@.len() >= 1,
            crate::walker::valid_id(old(self).state.path_tracker.spec_of(), node),
        ensures
            final(self).state == old(self).state,
            final(self).input == old(self).input,
            final(self).end_of_input == old(self).end_of_input,
            final(self).next_reschedule == old(self).next_reschedule,
            top_done(
                old(self).out_stack@,
                old(self).yields@,
                final(self).out_stack@,
                final(self).yields@,
                old(self).state.path_tracker.frames(),
                old(self).streams(node),
            ),
    {
        if let Some(n) = node {
            let stream = self.state.path_tracker.spec().get(n).options.stream;
            if stream {
                let path = self.state.path_tracker.path();
                match self.out_stack.pop() {
                    Some(value) => {
                        self.out_stack.push(Value::Streamed);
                        self.yields.push(Yield { path, value });
                        assert(self.yields@.drop_last() =~= old(self).yields@);
                    },
                    None => {},
                }
            }
        }
    }

    fn mark_needed(&mut self)
        requires
            old(self).wf(),
        ensures
            final(self).wf(),
            final(self).state.first_needed == needed_from(old(self).state),
            final(self).state.first_needed >= old(self).state.first_needed,
            final(self).state.position == old(self).state.position,
            final(self).state.path_tracker == old(self).state.path_tracker,
            final(self).state.current_string == old(self).state.current_string,
            final(self).input == old(self).input,
            final(self).end_of_input == old(self).end_of_input,
            final(self).next_reschedule == old(self).next_reschedule,
            final(self).out_stack == old(self).out_stack,
            final(self).yields == old(self).yields,
    {
        self.state.first_needed = match self.state.current_string {
            BuildString::Range(s, _) => if s < self.state.position {
                s
            } else {
                self.state.position
            },
            _ => self.state.position,
        };
    }

    /// Completes a scalar of kind `kind` at `pos`.
    fn push_scalar(&mut self, pos: usize, kind: ValueType, value: Value) -> (r: Result<(), ParseFailure>)
        requires
            old(self).wf(),
        ensures
            r is Ok <==> accepted(
                old(self).state.path_tracker.spec_of(),
                old(self).state.path_tracker.current_spec(),
                kind,
            ),
            r matches Err(e) ==> e == (ParseFailure { position: pos, kind: FailureKind::StructuralMismatch }),
            r is Err ==> *final(self) == *old(self),
            same_source(*old(self), *final(self)),
            r is Ok ==> {
                &&& final(self).wf()
                &&& final(self).state.path_tracker == old(self).state.path_tracker
                &&& final(self).state.current_string == old(self).state.current_string
                &&& final(self).state.position == old(self).state.position
                &&& final(self).state.first_needed == needed_from(old(self).state)
                &&& final(self).input == old(self).input
                &&& final(self).end_of_input == old(self).end_of_input
                &&& final(self).next_reschedule == old(self).next_reschedule
                &&& top_done(
                    old(self).out_stack@.push(value),
                    old(self).yields@,
                    final(self).out_stack@,
                    final(self).yields@,
                    old(self).state.path_tracker.frames(),
                    old(self).streams(old(self).state.path_tracker.current_spec()),
                )
            },
    {
        let node = self.state.path_tracker.visit_terminal(pos, kind)?;
        self.out_stack.push(value);
        self.do_stream(node);
        self.mark_needed();
        Ok(())
    }

    pub fn push_null(&mut self, pos: usize) -> (r: Result<(), ParseFailure>)
        requires
            old(self).wf(),
        ensures
            r is Ok <==> accepted(
                old(self).state.path_tracker.spec_of(),
                old(self).state.path_tracker.current_spec(),
                ValueType::Null,
            ),
            r matches Err(e) ==> e == (ParseFailure { position: pos, kind: FailureKind::StructuralMismatch }),
            r is Err ==> *final(self) == *old(self),
            same_source(*old(self), *final(self)),
            r is Ok ==> {
                &&& final(self).wf()
                &&& final(self).state.path_tracker == old(self).state.path_tracker
                &&& final(self).state.current_string == old(self).state.current_string
                &&& final(self).state.first_needed == needed_from(old(self).state)
                &&& final(self).input == old(self).input
                &&& top_done(
                    old(self).out_stack@.push(Value::Null),
                    old(self).yields@,
                    final(self).out_stack@,
                    final(self).yields@,
                    old(self).state.path_tracker.frames(),
                    old(self).streams(old(self).state.path_tracker.current_spec()),
                )
            },
    {
        self.push_scalar(pos, ValueType::Null, Value::Null)
    }

    pub fn push_bool(&mut self, pos: usize, val: bool) -> (r: Result<(), ParseFailure>)
        requires
            old(self).wf(),
        ensures
            r is Ok <==> accepted(
                old(self).state.path_tracker.spec_of(),
                old(self).state.path_tracker.current_spec(),
                ValueType::Boolean,
            ),
            r matches Err(e) ==> e == (ParseFailure { position: pos, kind: FailureKind::StructuralMismatch }),
            r is Err ==> *final(self) == *old(self),
            same_source(*old(self), *final(self)),
            r is Ok ==> {
                &&& final(self).wf()
                &&& final(self).state.path_tracker == old(self).state.path_tracker
                &&& final(self).state.current_string == old(self).state.current_string
                &&& final(self).state.first_needed == needed_from(old(self).state)
                &&& final(self).input == old(self).input
                &&& top_done(
                    old(self).out_stack@.push(Value::Bool(val)),
                    old(self).yields@,
                    final(self).out_stack@,
                    final(self).yields@,
                    old(self).state.path_tracker.frames(),
                    old(self).streams(old(self).state.path_tracker.current_spec()),
                )
            },
    {
        self.push_scalar(pos, ValueType::Boolean, Value::Bool(val))
    }

    /// Completes a number whose text is the input at `[start, end)`.
    pub fn push_number(&mut self, pos: usize, start: usize, end: usize) -> (r: Result<(), ParseFailure>)
        requires
            old(self).wf(),
            start <= end,
            start >= old(self).state.first_needed,
            readable(old(self).input.chunks(), start as int, end as int),
        ensures
            r is Ok <==> accepted(
                old(self).state.path_tracker.spec_of(),
                old(self).state.path_tracker.current_spec(),
                ValueType::Number,
            ),
            r matches Err(e) ==> e == (ParseFailure { position: pos, kind: FailureKind::StructuralMismatch }),
            r is Err ==> *final(self) == *old(self),
            same_source(*old(self), *final(self)),
            r is Ok ==> {
                &&& final(self).wf()
                &&& final(self).state.path_tracker == old(self).state.path_tracker
                &&& final(self).state.current_string == old(self).state.current_string
                &&& final(self).state.first_needed == needed_from(old(self).state)
                &&& final(self).input == old(self).input
                &&& scalar_done(
                    old(self).out_stack@,
                    old(self).yields@,
                    final(self).out_stack@,
                    final(self).yields@,
                    old(self).state.path_tracker.frames(),
                    old(self).streams(old(self).state.path_tracker.current_spec()),
                    |v: Value| v matches Value::Number(t) && t@ == bytes_at(old(self).input.chunks(), start as int, end as int),
                )
            },
    {
        let mut text: Vec<u8> = Vec::new();
        self.input.push_range(start, end, &mut text);
        assert(text@ =~= bytes_at(self.input.chunks(), start as int, end as int));
        let ghost v = Value::Number(text);
        let r = self.push_scalar(pos, ValueType::Number, Value::Number(text));
        proof {
            if r is Ok {
                assert(old(self).out_stack@.push(v).drop_last() =~= old(self).out_stack@);
            }
        }
        r
    }
}

impl StreamingSS {
    /// Opens an object at `pos`.
    pub fn push_map(&mut self, pos: usize) -> (r: Result<(), ParseFailure>)
        requires
            old(self).wf(),
        ensures
            r is Ok <==> accepted(
                old(self).state.path_tracker.spec_of(),
                old(self).state.path_tracker.current_spec(),
                ValueType::Object,
            ),
            r matches Err(e) ==> e == (ParseFailure { position: pos, kind: FailureKind::StructuralMismatch }),
            r is Err ==> *final(self) == *old(self),
            same_source(*old(self), *final(self)),
            r is Ok ==> {
                &&& final(self).wf()
                &&& final(self).state.path_tracker.in_map()
                &&& final(self).state.path_tracker.frames().drop_last() == old(self).state.path_tracker.frames()
                &&& final(self).state.path_tracker.spec_of() == old(self).state.path_tracker.spec_of()
                &&& crate::walker::pushed_frame(
                    old(self).state.path_tracker.frames(),
                    final(self).state.path_tracker.frames(),
                    old(self).state.path_tracker.current_spec(),
                )
                &&& final(self).state.path_tracker.current_spec() == old(self).state.path_tracker.current_spec()
                &&& final(self).state.current_string == old(self).state.current_string
                &&& final(self).state.first_needed == needed_from(old(self).state)
                &&& final(self).input == old(self).input
                &&& final(self).out_stack@.drop_last() == old(self).out_stack@
                &&& final(self).out_stack@.last() matches Value::Object(e) && e@.len() == 0
                &&& final(self).yields == old(self).yields
            },
    {
        self.state.path_tracker.enter_map(pos)?;
        self.out_stack.push(Value::Object(Vec::new()));
        self.mark_needed();
        Ok(())
    }

    /// Opens an array at `pos`.
    pub fn push_array(&mut self, pos: usize) -> (r: Result<(), ParseFailure>)
        requires
            old(self).wf(),
        ensures
            r is Ok <==> accepted(
                old(self).state.path_tracker.spec_of(),
                old(self).state.path_tracker.current_spec(),
                ValueType::Array,
            ),
            r matches Err(e) ==> e == (ParseFailure { position: pos, kind: FailureKind::StructuralMismatch }),
            r is Err ==> *final(self) == *old(self),
            same_source(*old(self), *final(self)),
            r is Ok ==> {
                &&& final(self).wf()
                &&& final(self).state.path_tracker.in_array()
                &&& final(self).state.path_tracker.frames().last().entry == PathEntry::ArrayIndex(0)
                &&& final(self).state.path_tracker.frames().drop_last() == old(self).state.path_tracker.frames()
                &&& final(self).state.path_tracker.spec_of() == old(self).state.path_tracker.spec_of()
                &&& crate::walker::pushed_frame(
                    old(self).state.path_tracker.frames(),
                    final(self).state.path_tracker.frames(),
                    old(self).state.path_tracker.current_spec(),
                )
                &&& final(self).state.path_tracker.current_spec() == match old(self).state.path_tracker.current_spec() {
                    Some(n) => crate::walker::variant_of(old(self).state.path_tracker.spec_of(), n).index_child(),
                    None => None,
                }
                &&& final(self).state.current_string == old(self).state.current_string
                &&& final(self).state.first_needed == needed_from(old(self).state)
                &&& final(self).input == old(self).input
                &&& final(self).out_stack@.drop_last() == old(self).out_stack@
                &&& final(self).out_stack@.last() matches Value::Array(e) && e@.len() == 0
                &&& final(self).yields == old(self).yields
            },
    {
        self.state.path_tracker.enter_array(pos)?;
        self.out_stack.push(Value::Array(Vec::new()));
        self.mark_needed();
        Ok(())
    }

    /// Starts a string; an object key is always built as owned bytes.
    pub fn start_string(&mut self, is_key: bool)
        requires
            old(self).wf(),
        ensures
            same_source(*old(self), *final(self)),
            final(self).wf(),
            final(self).state.current_string.content(final(self).input) == Seq::<u8>::empty(),
            is_key ==> final(self).state.current_string is Owned,
            !is_key ==> final(self).state.current_string is Empty,
            final(self).state.path_tracker == old(self).state.path_tracker,
            final(self).state.position == old(self).state.position,
            final(self).state.first_needed == old(self).state.first_needed,
            final(self).input == old(self).input,
            final(self).out_stack == old(self).out_stack,
            final(self).yields == old(self).yields,
    {
        self.state.current_string = if is_key {
            BuildString::new_owned()
        } else {
            BuildString::new()
        };
    }

    /// Appends the unescaped input bytes at `[start, end)` to the current string.
    pub fn append_string_range(&mut self, start: usize, end: usize)
        requires
            old(self).wf(),
            start <= end,
            start >= old(self).state.first_needed,
            readable(old(self).input.chunks(), start as int, end as int),
        ensures
            same_source(*old(self), *final(self)),
            final(self).wf(),
            final(self).state.current_string.content(final(self).input) == old(
                self,
            ).state.current_string.content(old(self).input) + bytes_at(
                old(self).input.chunks(),
                start as int,
                end as int,
            ),
            old(self).state.current_string is Owned ==> final(self).state.current_string is Owned,
            old(self).state.current_string is Empty && one_chunk(old(self).input.chunks(), start as int, end as int)
                ==> final(self).state.current_string == BuildString::Range(start, end),
            old(self).state.current_string is Range && old(self).state.current_string->Range_1 == start
                && one_chunk(old(self).input.chunks(), old(self).state.current_string->Range_0 as int, end as int)
                ==> final(self).state.current_string == BuildString::Range(old(self).state.current_string->Range_0, end),
            final(self).state.path_tracker == old(self).state.path_tracker,
            final(self).state.position == old(self).state.position,
            final(self).state.first_needed == old(self).state.first_needed,
            final(self).input == old(self).input,
            final(self).out_stack == old(self).out_stack,
            final(self).yields == old(self).yields,
    {
        self.state.current_string.append_range(start, end, &self.input);
    }

    /// Appends one byte decoded from an escape.
    pub fn append_string_single(&mut self, byte: u8)
        requires
            old(self).wf(),
        ensures
            same_source(*old(self), *final(self)),
            final(self).wf(),
            final(self).state.current_string is Owned,
            final(self).state.current_string.content(final(self).input) == old(
                self,
            ).state.current_string.content(old(self).input).push(byte),
            final(self).state.path_tracker == old(self).state.path_tracker,
            final(self).state.position == old(self).state.position,
            final(self).state.first_needed == old(self).state.first_needed,
            final(self).input == old(self).input,
            final(self).out_stack == old(self).out_stack,
            final(self).yields == old(self).yields,
    {
        self.state.current_string.append_single(byte, &self.input);
    }

    /// Appends a code point decoded from an escape, as UTF-8.
    pub fn append_string_codepoint(&mut self, c: char)
        requires
            old(self).wf(),
        ensures
            same_source(*old(self), *final(self)),
            final(self).wf(),
            final(self).state.current_string is Owned,
            final(self).state.current_string.content(final(self).input) == old(
                self,
            ).state.current_string.content(old(self).input) + utf8_of(c as u32),
            final(self).state.path_tracker == old(self).state.path_tracker,
            final(self).state.position == old(self).state.position,
            final(self).state.first_needed == old(self).state.first_needed,
            final(self).input == old(self).input,
            final(self).out_stack == old(self).out_stack,
            final(self).yields == old(self).yields,
    {
        self.state.current_string.append_codepoint(c, &self.input);
    }

    /// Completes the current string, which starts at `pos`: an object key is
    /// resolved against the spec, any other string is a value.
    pub fn finalize_string(&mut self, pos: usize, is_key: bool) -> (r: Result<(), ParseFailure>)
        requires
            old(self).wf(),
            is_key ==> old(self).state.path_tracker.in_map(),
        ensures
            same_source(*old(self), *final(self)),
            is_key ==> (r is Err <==> key_refused(
                old(self).state.path_tracker.spec_of(),
                old(self).state.path_tracker.frames().last().node,
                old(self).state.current_string.content(old(self).input),
            )),
            is_key ==> (r matches Err(e) ==> e == (ParseFailure { position: pos, kind: FailureKind::UnmatchedKey })),
            !is_key ==> (r is Ok <==> accepted(
                old(self).state.path_tracker.spec_of(),
                old(self).state.path_tracker.current_spec(),
                ValueType::String,
            )),
            !is_key ==> (r matches Err(e) ==> e == (ParseFailure { position: pos, kind: FailureKind::StructuralMismatch })),
            r is Ok ==> {
                let text = old(self).state.current_string.content(old(self).input);
                &&& final(self).wf()
                &&& final(self).state.current_string is Empty
                &&& final(self).state.first_needed == old(self).state.position
                &&& final(self).input == old(self).input
                &&& is_key ==> {
                    &&& final(self).out_stack@.drop_last() == old(self).out_stack@
                    &&& final(self).out_stack@.last() matches Value::Str(k) && k@ == text
                    &&& final(self).yields == old(self).yields
                    &&& final(self).state.path_tracker.in_map()
                    &&& final(self).state.path_tracker.frames().len() == old(self).state.path_tracker.frames().len()
                    &&& final(self).state.path_tracker.spec_of() == old(self).state.path_tracker.spec_of()
                    &&& final(self).state.path_tracker.frames().drop_last() == old(self).state.path_tracker.frames().drop_last()
                    &&& final(self).state.path_tracker.frames().last().node == old(self).state.path_tracker.frames().last().node
                    &&& final(self).state.path_tracker.frames().last().entry matches PathEntry::MapKey(k) && k@ == crate::walker::shown_under(
                        old(self).state.path_tracker.spec_of(),
                        old(self).state.path_tracker.frames().last().node,
                        text,
                    )
                    &&& final(self).state.path_tracker.frames().last().key_skipped == crate::walker::key_unmatched(
                        old(self).state.path_tracker.spec_of(),
                        old(self).state.path_tracker.frames().last().node,
                        text,
                    )
                    &&& final(self).state.path_tracker.current_spec() == crate::walker::key_target(
                        old(self).state.path_tracker.spec_of(),
                        old(self).state.path_tracker.frames().last().node,
                        text,
                    )
                }
                &&& !is_key ==> {
                    &&& final(self).state.path_tracker == old(self).state.path_tracker
                    &&& scalar_done(
                        old(self).out_stack@,
                        old(self).yields@,
                        final(self).out_stack@,
                        final(self).yields@,
                        old(self).state.path_tracker.frames(),
                        old(self).streams(old(self).state.path_tracker.current_spec()),
                        |v: Value| v matches Value::Str(t) && t@ == text,
                    )
                }
            },
    {
        let text = self.state.current_string.finish(&self.input);
        self.state.current_string = BuildString::new();
        if is_key {
            self.state.path_tracker.enter_key(text.as_slice(), pos)?;
            self.out_stack.push(Value::Str(text));
            self.mark_needed();
            Ok(())
        } else {
            let ghost v = Value::Str(text);
            let r = self.push_scalar(pos, ValueType::String, Value::Str(text));
            proof {
                if r is Ok {
                    assert(old(self).out_stack@.push(v).drop_last() =~= old(self).out_stack@);
                }
            }
            r
        }
    }

    /// Closes the innermost object; emits it when its node streams.
    pub fn finalize_map(&mut self, pos: usize)
        requires
            old(self).wf(),
            old(self).state.path_tracker.in_map(),
            old(self).out_stack@.len() >= 1,
        ensures
            same_source(*old(self), *final(self)),
            final(self).wf(),
            final(self).state.first_needed == needed_from(old(self).state),
            final(self).state.current_string == old(self).state.current_string,
            final(self).state.path_tracker.spec_of() == old(self).state.path_tracker.spec_of(),
            final(self).state.path_tracker.frames() == old(self).state.path_tracker.frames().drop_last(),
            final(self).state.path_tracker.current_spec() == old(self).state.path_tracker.frames().last().node,
            final(self).input == old(self).input,
            top_done(
                old(self).out_stack@,
                old(self).yields@,
                final(self).out_stack@,
                final(self).yields@,
                old(self).state.path_tracker.frames().drop_last(),
                old(self).streams(old(self).state.path_tracker.frames().last().node),
            ),
    {
        self.mark_needed();
        let node = self.state.path_tracker.exit_map();
        self.do_stream(node);
    }

    /// Closes the innermost array; emits it when its node streams.
    pub fn finalize_array(&mut self, pos: usize)
        requires
            old(self).wf(),
            old(self).state.path_tracker.in_array(),
            old(self).out_stack@.len() >= 1,
        ensures
            same_source(*old(self), *final(self)),
            final(self).wf(),
            final(self).state.first_needed == needed_from(old(self).state),
            final(self).state.current_string == old(self).state.current_string,
            final(self).state.path_tracker.spec_of() == old(self).state.path_tracker.spec_of(),
            final(self).state.path_tracker.frames() == old(self).state.path_tracker.frames().drop_last(),
            final(self).state.path_tracker.current_spec() == old(self).state.path_tracker.frames().last().node,
            final(self).input == old(self).input,
            top_done(
                old(self).out_stack@,
                old(self).yields@,
                final(self).out_stack@,
                final(self).yields@,
                old(self).state.path_tracker.frames().drop_last(),
                old(self).streams(old(self).state.path_tracker.frames().last().node),
            ),
    {
        self.mark_needed();
        let node = self.state.path_tracker.exit_array();
        self.do_stream(node);
    }

    /// Moves a completed value into the array below it.
    pub fn pop_into_array(&mut self)
        requires
            old(self).wf(),
            old(self).state.path_tracker.in_array(),
            old(self).state.path_tracker.frames().last().entry->ArrayIndex_0 < usize::MAX,
            old(self).out_stack@.len() >= 2,
            old(self).out_stack@[old(self).out_stack@.len() - 2] is Array,
        ensures
            same_source(*old(self), *final(self)),
            final(self).wf(),
            final(self).out_stack@.len() == old(self).out_stack@.len() - 1,
            final(self).out_stack@.drop_last() == old(self).out_stack@.subrange(0, old(self).out_stack@.len() - 2),
            final(self).out_stack@.last() matches Value::Array(items) && items@ == old(self).out_stack@[old(self).out_stack@.len() - 2]->Array_0@.push(old(self).out_stack@.last()),
            final(self).state.path_tracker.frames().last().entry == PathEntry::ArrayIndex(
                (old(self).state.path_tracker.frames().last().entry->ArrayIndex_0 + 1) as usize,
            ),
            final(self).state.path_tracker.frames().len() == old(self).state.path_tracker.frames().len(),
            final(self).state.path_tracker.spec_of() == old(self).state.path_tracker.spec_of(),
            final(self).state.path_tracker.frames().drop_last() == old(self).state.path_tracker.frames().drop_last(),
            final(self).state.path_tracker.frames().last().node == old(self).state.path_tracker.frames().last().node,
            !final(self).state.path_tracker.frames().last().key_skipped,
            final(self).state.first_needed == old(self).state.first_needed,
            final(self).state.current_string == old(self).state.current_string,
            final(self).state.path_tracker.current_spec() == old(self).state.path_tracker.current_spec(),
            final(self).input == old(self).input,
            final(self).yields == old(self).yields,
    {
        let ghost s0 = self.out_stack@;
        match self.out_stack.pop() {
            Some(value) => {
                let last = self.out_stack.len() - 1;
                if let Value::Array(items) = &mut self.out_stack[last] {
                    items.push(value);
                }
                assert(self.out_stack@.drop_last() =~= s0.subrange(0, s0.len() - 2));
            },
            None => {},
        }
        self.state.path_tracker.next_index();
    }

    /// Moves a completed key and value into the object below them; a key
    /// that the spec skips leaves the object as it was.
    pub fn pop_into_map(&mut self)
        requires
            old(self).wf(),
            old(self).state.path_tracker.in_map(),
            old(self).out_stack@.len() >= 3,
            old(self).out_stack@[old(self).out_stack@.len() - 3] is Object,
            old(self).out_stack@[old(self).out_stack@.len() - 2] is Str,
        ensures
            same_source(*old(self), *final(self)),
            final(self).wf(),
            final(self).out_stack@.len() == old(self).out_stack@.len() - 2,
            final(self).out_stack@.drop_last() == old(self).out_stack@.subrange(0, old(self).out_stack@.len() - 3),
            ({
                let n = old(self).out_stack@.len();
                let entries = old(self).out_stack@[n - 3]->Object_0@;
                let key = old(self).out_stack@[n - 2]->Str_0;
                final(self).out_stack@.last() matches Value::Object(e) && e@ == if old(self).state.path_tracker.frames().last().key_skipped {
                    entries
                } else {
                    put(entries, key, old(self).out_stack@[n - 1])
                }
            }),
            final(self).state == old(self).state,
            final(self).input == old(self).input,
            final(self).yields == old(self).yields,
    {
        let ghost s0 = self.out_stack@;
        let skipped = self.state.path_tracker.key_skipped();
        let value = self.out_stack.pop();
        let key = self.out_stack.pop();
        match (key, value) {
            (Some(Value::Str(k)), Some(v)) => {
                let last = self.out_stack.len() - 1;
                if !skipped {
                    if let Value::Object(entries) = &mut self.out_stack[last] {
                        map_put(entries, k, v);
                    }
                }
                assert(self.out_stack@.drop_last() =~= s0.subrange(0, s0.len() - 3));
            },
            _ => {},
        }
    }
}

/// Sets `k => v` in a list of pairs, replacing the value of an equal key.
fn map_put(entries: &mut Vec<(Vec<u8>, Value)>, k: Vec<u8>, v: Value)
    ensures
        final(entries)@ == put(old(entries)@, k, v),
{
    let mut i: usize = 0;
    while i < entries.len()
        invariant
            i <= entries@.len(),
            entries@ == old(entries)@,
            forall|j: int| 0 <= j < i ==> (#[trigger] entries@[j]).0@ != k@,
        decreases entries@.len() - i,
    {
        if crate::tree_spec::bytes_eq(entries[i].0.as_slice(), k.as_slice()) {
            proof {
                let e = old(entries)@;
                assert(e[i as int].0@ == k@ && forall|l: int| 0 <= l < i ==> (#[trigger] e[l]).0@ != k@);
                let c = choose|j: int|
                    0 <= j < e.len() && (#[trigger] e[j]).0@ == k@ && forall|l: int|
                        0 <= l < j ==> (#[trigger] e[l]).0@ != k@;
                if c < i {
                    assert(e[c].0@ != k@);
                } else if c > i {
                    assert(e[i as int].0@ != k@);
                }
            }
            entries.set(i, (k, v));
            return;
        }
        i = i + 1;
    }
    entries.push((k, v));
}

/// How a run of the grammar engine over the sink ended.
#[derive(Debug, Copy, Clone, PartialEq, Eq, Structural)]
pub enum EngineResult {
    /// The document is complete.
    Completed,
    /// The byte source suspended the run.
    Bailed(BailType),
    /// A syntax violation at this position.
    Unexpected(usize),
    /// A sink callback refused a value.
    SinkFailed(ParseFailure),
}

/// What a streaming run hands back to the caller, besides the yields.
#[derive(Debug, Copy, Clone, PartialEq, Eq, Structural)]
pub enum StreamStatus {
    /// The document is complete.
    Finished,
    /// Resume at once: the step budget ran out.
    Reschedule,
    /// Resume once more input is supplied.
    AwaitInput,
    /// The run stopped for good.
    Failed(ParseFailure),
}

/// What a whole-buffer run hands back to the caller.
#[derive(Debug)]
pub enum SingleStatus {
    /// The root value.
    Done(Value),
    /// Resume at once: the step budget ran out.
    Suspended,
    /// The run stopped for good.
    Failed(ParseFailure),
}

/// The status a streaming run reports for `outcome`.
pub open spec fn stream_status(outcome: EngineResult) -> StreamStatus {
    match outcome {
        EngineResult::Completed => StreamStatus::Finished,
        EngineResult::Bailed(BailType::Reschedule) => StreamStatus::Reschedule,
        EngineResult::Bailed(BailType::AwaitInput) => StreamStatus::AwaitInput,
        EngineResult::Unexpected(p) => StreamStatus::Failed(
            ParseFailure { position: p, kind: FailureKind::UnexpectedToken },
        ),
        EngineResult::SinkFailed(f) => StreamStatus::Failed(f),
    }
}

impl StreamingSS {
    /// Ends a streaming run: hands out the yields emitted during it and drops
    /// every input chunk that ends before the first byte still needed.
    pub fn conclude_streaming(&mut self, outcome: EngineResult) -> (r: (StreamStatus, Vec<Yield>))
        requires
            old(self).wf(),
        ensures
            final(self).wf(),
            r.0 == stream_status(outcome),
            r.1@ == old(self).yields@,
            final(self).yields@.len() == 0,
            final(self).state == old(self).state,
            final(self).out_stack == old(self).out_stack,
            forall|p: int| p >= old(self).state.first_needed ==> #[trigger] final(self).input.byte_spec(p)
                == old(self).input.byte_spec(p),
            forall|i: int| 0 <= i < final(self).input.chunks().len() ==> crate::input_provider::chunk_end(
                #[trigger] final(self).input.chunks()[i],
            ) >= old(self).state.first_needed,
    {
        let first_needed = self.state.first_needed;
        self.input.retire(first_needed);
        proof {
            if let BuildString::Range(s, e) = self.state.current_string {
                assert forall|p: int| s <= p < e implies (#[trigger] crate::input_provider::byte_at(
                    self.input.chunks(),
                    p,
                )) is Some by {
                    assert(self.input.byte_spec(p) == old(self).input.byte_spec(p));
                }
            }
        }
        let mut yields: Vec<Yield> = Vec::new();
        std::mem::swap(&mut yields, &mut self.yields);
        let status = match outcome {
            EngineResult::Completed => StreamStatus::Finished,
            EngineResult::Bailed(BailType::Reschedule) => StreamStatus::Reschedule,
            EngineResult::Bailed(BailType::AwaitInput) => StreamStatus::AwaitInput,
            EngineResult::Unexpected(p) => StreamStatus::Failed(
                ParseFailure { position: p, kind: FailureKind::UnexpectedToken },
            ),
            EngineResult::SinkFailed(f) => StreamStatus::Failed(f),
        };
        (status, yields)
    }
}

impl StreamingSS {
    /// Ends a whole-buffer run: on completion the root value comes off the stack.
    pub fn conclude_single(&mut self, outcome: EngineResult) -> (r: SingleStatus)
        requires
            outcome is Completed ==> old(self).out_stack@.len() >= 1,
        ensures
            outcome is Completed ==> (r matches SingleStatus::Done(v) && v == old(self).out_stack@.last()
                && final(self).out_stack@ == old(self).out_stack@.drop_last()),
            outcome is Bailed ==> (r is Suspended && final(self).out_stack == old(self).out_stack),
            outcome is Unexpected ==> (r matches SingleStatus::Failed(f) && f == (
            ParseFailure { position: outcome->Unexpected_0, kind: FailureKind::UnexpectedToken })),
            outcome is SinkFailed ==> (r matches SingleStatus::Failed(f) && f == outcome->SinkFailed_0),
            final(self).state == old(self).state,
            final(self).input == old(self).input,
    {
        match outcome {
            EngineResult::Completed => match self.out_stack.pop() {
                Some(v) => SingleStatus::Done(v),
                None => SingleStatus::Suspended,
            },
            EngineResult::Bailed(_) => SingleStatus::Suspended,
            EngineResult::Unexpected(p) => SingleStatus::Failed(
                ParseFailure { position: p, kind: FailureKind::UnexpectedToken },
            ),
            EngineResult::SinkFailed(f) => SingleStatus::Failed(f),
        }
    }
}

} // verus!
