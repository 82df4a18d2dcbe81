//! Undo/redo history. Edits are recorded as operations and gathered into
//! groups that undo and redo together; a group ends when the kind of edit
//! changes, after a pause in typing, or for pastes, cuts and other edits.
use std::time::{Duration, Instant};
use vstd::prelude::*;
use crate::buffer::{spliced_in, spliced_out, Buffer};

verus! {

// ---------------------------------------------------------------------------
// Clock
// ---------------------------------------------------------------------------

#[verifier::external_type_specification]
#[verifier::external_body]
pub struct ExInstant(std::time::Instant);

/// Trusted: `Instant::now` reads the monotonic clock. Nothing is stated of
/// the value, which depends on the time of the call.
#[verifier::external_body]
fn instant_now() -> Instant {
    Instant::now()
}

/// Trusted: `Instant::elapsed`, the time since `t`. Nothing is stated of
/// the value, which depends on the time of the call.
#[verifier::external_body]
fn instant_elapsed(t: &Instant) -> Duration {
    t.elapsed()
}

/// Trusted: `Duration::as_millis`, the whole milliseconds of `d`. A
/// `Duration` is opaque here, so nothing is stated of the value.
#[verifier::external_body]
fn duration_millis(d: &Duration) -> u128 {
    d.as_millis()
}

// ---------------------------------------------------------------------------
// Operation — a single atomic text change
// ---------------------------------------------------------------------------

pub enum Operation {
    Insert { pos: usize, text: String },
    Delete { pos: usize, text: String },
}

/// An operation as a value: position and the characters inserted or removed.
pub enum OpModel {
    Insert(usize, Seq<char>),
    Delete(usize, Seq<char>),
}

impl View for Operation {
    type V = OpModel;

    open spec fn view(&self) -> OpModel {
        match self {
            Operation::Insert { pos, text } => OpModel::Insert(*pos, text@),
            Operation::Delete { pos, text } => OpModel::Delete(*pos, text@),
        }
    }
}

/// The UTF-8 bytes of a text.
pub open spec fn enc(t: Seq<char>) -> Seq<u8> {
    vstd::utf8::encode_utf8(t)
}

/// The buffer after one operation.
pub open spec fn apply_op(b: Seq<u8>, op: OpModel) -> Seq<u8> {
    match op {
        OpModel::Insert(p, t) => spliced_in(b, p as int, enc(t)),
        OpModel::Delete(p, t) => spliced_out(b, p as int, enc(t).len() as int),
    }
}

/// The operation lies inside the buffer.
pub open spec fn op_fits(b: Seq<u8>, op: OpModel) -> bool {
    match op {
        OpModel::Insert(p, t) => p <= b.len(),
        OpModel::Delete(p, t) => p + enc(t).len() <= b.len(),
    }
}

/// The operation lies inside the buffer, and a deletion records exactly the
/// bytes it removes.
pub open spec fn op_faithful(b: Seq<u8>, op: OpModel) -> bool {
    &&& op_fits(b, op)
    &&& (op matches OpModel::Delete(p, t) ==> b.subrange(p as int, p + enc(t).len()) == enc(t))
}

/// The operation that undoes `op`.
pub open spec fn invert(op: OpModel) -> OpModel {
    match op {
        OpModel::Insert(p, t) => OpModel::Delete(p, t),
        OpModel::Delete(p, t) => OpModel::Insert(p, t),
    }
}

/// The operations applied in order.
pub open spec fn apply_ops(b: Seq<u8>, ops: Seq<OpModel>) -> Seq<u8>
    decreases ops.len(),
{
    if ops.len() == 0 {
        b
    } else {
        apply_op(apply_ops(b, ops.drop_last()), ops.last())
    }
}

/// Each operation fits the buffer it is applied to.
pub open spec fn ops_fit(b: Seq<u8>, ops: Seq<OpModel>) -> bool
    decreases ops.len(),
{
    ops.len() == 0 || (ops_fit(b, ops.drop_last()) && op_fits(apply_ops(b, ops.drop_last()), ops.last()))
}

/// Each operation fits, and each deletion records the bytes it removes.
pub open spec fn ops_faithful(b: Seq<u8>, ops: Seq<OpModel>) -> bool
    decreases ops.len(),
{
    ops.len() == 0 || (ops_faithful(b, ops.drop_last()) && op_faithful(
        apply_ops(b, ops.drop_last()),
        ops.last(),
    ))
}

/// The inverses of the operations applied last to first.
pub open spec fn revert_ops(b: Seq<u8>, ops: Seq<OpModel>) -> Seq<u8>
    decreases ops.len(),
{
    if ops.len() == 0 {
        b
    } else {
        revert_ops(apply_op(b, invert(ops.last())), ops.drop_last())
    }
}

/// Each inverse fits the buffer it is applied to.
pub open spec fn revert_fits(b: Seq<u8>, ops: Seq<OpModel>) -> bool
    decreases ops.len(),
{
    ops.len() == 0 || (op_fits(b, invert(ops.last())) && revert_fits(
        apply_op(b, invert(ops.last())),
        ops.drop_last(),
    ))
}

/// Apply one operation to the buffer.
fn apply_to(op: &Operation, buf: &mut Buffer)
    requires
        op_fits(old(buf)@, op@),
    ensures
        final(buf)@ == apply_op(old(buf)@, op@),
{
    match op {
        Operation::Insert { pos, text } => {
            buf.insert(*pos, text.as_str());
        },
        Operation::Delete { pos, text } => {
            let n = text.as_str().as_bytes().len();
            buf.delete(*pos, n);
        },
    }
}

impl Operation {
    fn invert(&self) -> (r: Operation)
        ensures
            r@ == invert(self@),
    {
        match self {
            Operation::Insert { pos, text } => Operation::Delete { pos: *pos, text: text.clone() },
            Operation::Delete { pos, text } => Operation::Insert { pos: *pos, text: text.clone() },
        }
    }
}

// ---------------------------------------------------------------------------
// CursorState, GroupContext, Group
// ---------------------------------------------------------------------------

#[derive(Clone, Copy, Debug, PartialEq, Eq, Structural)]
pub struct CursorState {
    pub line: usize,
    pub col: usize,
    pub desired_col: usize,
}

#[derive(Clone, Copy, Debug, PartialEq, Eq, Structural)]
pub enum GroupContext {
    Typing,
    Deleting,
    Paste,
    Cut,
    Other,
}

struct Group {
    ops: Vec<Operation>,
    cursor_before: CursorState,
    cursor_after: CursorState,
}

pub struct GroupModel {
    pub ops: Seq<OpModel>,
    pub cursor_before: CursorState,
    pub cursor_after: CursorState,
}

pub open spec fn ops_view(v: Seq<Operation>) -> Seq<OpModel> {
    v.map_values(|o: Operation| o@)
}

impl View for Group {
    type V = GroupModel;

    closed spec fn view(&self) -> GroupModel {
        GroupModel { ops: ops_view(self.ops@), cursor_before: self.cursor_before, cursor_after: self.cursor_after }
    }
}

spec fn groups_view(v: Seq<Group>) -> Seq<GroupModel> {
    v.map_values(|g: Group| g@)
}

// ---------------------------------------------------------------------------
// UndoStack
// ---------------------------------------------------------------------------

/// A pause of this many milliseconds between edits ends a group.
pub const GROUP_TIMEOUT_MS: u128 = 500;

/// Maximum number of undo groups retained per buffer; the oldest group is
/// dropped beyond it.
pub const MAX_UNDO_GROUPS: usize = 100;

pub struct UndoStack {
    undo: Vec<Group>,
    redo: Vec<Group>,
    pending: Vec<Operation>,
    pending_cursor: Option<CursorState>,
    context: GroupContext,
    last_edit: Option<Instant>,
    saved_at: Option<usize>,
}

/// The history as a value. The time of the last edit is only known to be
/// there or not.
pub struct UndoModel {
    pub undo: Seq<GroupModel>,
    pub redo: Seq<GroupModel>,
    pub pending: Seq<OpModel>,
    pub pending_cursor: Option<CursorState>,
    pub context: GroupContext,
    pub has_last_edit: bool,
    pub saved_at: Option<usize>,
}

impl View for UndoStack {
    type V = UndoModel;

    closed spec fn view(&self) -> UndoModel {
        UndoModel {
            undo: groups_view(self.undo@),
            redo: groups_view(self.redo@),
            pending: ops_view(self.pending@),
            pending_cursor: self.pending_cursor,
            context: self.context,
            has_last_edit: self.last_edit is Some,
            saved_at: self.saved_at,
        }
    }
}

/// Push a group, dropping the oldest beyond the cap.
pub open spec fn push_group(u: Seq<GroupModel>, g: GroupModel) -> Seq<GroupModel> {
    let s = u.push(g);
    if s.len() > MAX_UNDO_GROUPS {
        s.drop_first()
    } else {
        s
    }
}

/// The pending operations closed into a group ending at `cursor_after`.
pub open spec fn spec_finish_group(m: UndoModel, cursor_after: CursorState) -> UndoModel {
    if m.pending.len() == 0 {
        m
    } else {
        UndoModel {
            undo: push_group(
                m.undo,
                GroupModel {
                    ops: m.pending,
                    cursor_before: m.pending_cursor.unwrap_or(cursor_after),
                    cursor_after,
                },
            ),
            pending: Seq::empty(),
            pending_cursor: None,
            ..m
        }
    }
}

/// Whether a new edit starts a new group: nothing pending, another kind of
/// edit, a paste, cut or other edit, or the pause since the last edit.
pub open spec fn starts_group(m: UndoModel, ctx: GroupContext, timed_out: bool) -> bool {
    ||| m.pending.len() == 0
    ||| ctx != m.context
    ||| ctx == GroupContext::Paste
    ||| ctx == GroupContext::Cut
    ||| ctx == GroupContext::Other
    ||| timed_out
}

/// Recording `op`, where `timed_out` tells whether the pause since the
/// last edit reached the timeout (always so when there was none).
pub open spec fn spec_record(
    m: UndoModel,
    op: OpModel,
    cursor_before: CursorState,
    ctx: GroupContext,
    timed_out: bool,
) -> UndoModel {
    let m1 = if starts_group(m, ctx, timed_out) && m.pending.len() > 0 {
        UndoModel {
            undo: push_group(
                m.undo,
                GroupModel {
                    ops: m.pending,
                    cursor_before: m.pending_cursor.unwrap_or(cursor_before),
                    cursor_after: cursor_before,
                },
            ),
            pending: Seq::empty(),
            ..m
        }
    } else {
        m
    };
    UndoModel {
        pending: m1.pending.push(op),
        pending_cursor: if m1.pending.len() == 0 {
            Some(cursor_before)
        } else {
            m1.pending_cursor
        },
        context: ctx,
        has_last_edit: true,
        redo: Seq::empty(),
        ..m1
    }
}

/// Undo: close the pending group, then move the last group to the redo
/// stack; the cursor it started from is returned.
pub open spec fn spec_undo(m: UndoModel, cursor: CursorState) -> (UndoModel, Option<CursorState>) {
    let f = spec_finish_group(m, cursor);
    if f.undo.len() == 0 {
        (f, None)
    } else {
        let g = f.undo.last();
        (UndoModel { undo: f.undo.drop_last(), redo: f.redo.push(g), ..f }, Some(g.cursor_before))
    }
}

/// The buffer after an undo: the last group reverted.
pub open spec fn undo_buffer(m: UndoModel, cursor: CursorState, b: Seq<u8>) -> Seq<u8> {
    let f = spec_finish_group(m, cursor);
    if f.undo.len() == 0 {
        b
    } else {
        revert_ops(b, f.undo.last().ops)
    }
}

/// What `undo` needs: the group it reverts fits the buffer.
pub open spec fn undo_fits(m: UndoModel, cursor: CursorState, b: Seq<u8>) -> bool {
    let f = spec_finish_group(m, cursor);
    f.undo.len() > 0 ==> revert_fits(b, f.undo.last().ops)
}

/// Redo: move the last undone group back; the cursor it ended at is returned.
pub open spec fn spec_redo(m: UndoModel) -> (UndoModel, Option<CursorState>) {
    if m.redo.len() == 0 {
        (m, None)
    } else {
        let g = m.redo.last();
        (UndoModel { undo: m.undo.push(g), redo: m.redo.drop_last(), ..m }, Some(g.cursor_after))
    }
}

/// The buffer after a redo: the group applied again.
pub open spec fn redo_buffer(m: UndoModel, b: Seq<u8>) -> Seq<u8> {
    if m.redo.len() == 0 {
        b
    } else {
        apply_ops(b, m.redo.last().ops)
    }
}

/// What `redo` needs: the group it applies fits the buffer.
pub open spec fn redo_fits(m: UndoModel, b: Seq<u8>) -> bool {
    m.redo.len() > 0 ==> ops_fit(b, m.redo.last().ops)
}

pub open spec fn spec_is_at_saved(m: UndoModel) -> bool {
    m.pending.len() == 0 && m.saved_at == Some(m.undo.len() as usize)
}

// ---------------------------------------------------------------------------
// Laws
// ---------------------------------------------------------------------------

/// Undoing one operation restores the buffer it was applied to, provided a
/// deletion recorded the bytes it removed.
pub proof fn lemma_invert_op(b: Seq<u8>, op: OpModel)
    requires
        op_faithful(b, op),
    ensures
        op_fits(apply_op(b, op), invert(op)),
        apply_op(apply_op(b, op), invert(op)) == b,
{
    match op {
        OpModel::Insert(p, t) => {
            let b2 = apply_op(b, op);
            assert(b2.take(p as int) =~= b.take(p as int));
            assert(b2.skip(p + enc(t).len()) =~= b.skip(p as int));
            assert(b.take(p as int) + b.skip(p as int) =~= b);
        },
        OpModel::Delete(p, t) => {
            let b2 = apply_op(b, op);
            assert(b2.take(p as int) =~= b.take(p as int));
            assert(b2.skip(p as int) =~= b.skip(p + enc(t).len()));
            assert(b.take(p as int) + enc(t) + b.skip(p + enc(t).len()) =~= b);
        },
    }
}

/// Undoing a group of operations restores the buffer the group started
/// from: each inverse fits, and the result is the original buffer.
pub proof fn lemma_revert_apply(b: Seq<u8>, ops: Seq<OpModel>)
    requires
        ops_faithful(b, ops),
    ensures
        revert_fits(apply_ops(b, ops), ops),
        revert_ops(apply_ops(b, ops), ops) == b,
    decreases ops.len(),
{
    if ops.len() > 0 {
        let init = ops.drop_last();
        lemma_invert_op(apply_ops(b, init), ops.last());
        lemma_revert_apply(b, init);
    }
}

/// Faithful operations fit.
pub proof fn lemma_faithful_fit(b: Seq<u8>, ops: Seq<OpModel>)
    requires
        ops_faithful(b, ops),
    ensures
        ops_fit(b, ops),
    decreases ops.len(),
{
    if ops.len() > 0 {
        lemma_faithful_fit(b, ops.drop_last());
    }
}

proof fn lemma_fit_prefix(b: Seq<u8>, ops: Seq<OpModel>, k: int)
    requires
        ops_fit(b, ops),
        0 <= k <= ops.len(),
    ensures
        ops_fit(b, ops.take(k)),
    decreases ops.len() - k,
{
    if k < ops.len() {
        assert(ops.take(k + 1).drop_last() =~= ops.take(k));
        lemma_fit_prefix(b, ops, k + 1);
    } else {
        assert(ops.take(k) =~= ops);
    }
}

/// Undo followed by redo: the buffer is back where it was before the undo,
/// the history is back to what it was once the pending edits were closed,
/// undo returns the cursor the group started from and redo the one it
/// ended at. The buffer before the undo is the group applied to `b0`, with
/// deletions recording what they removed.
pub proof fn lemma_undo_then_redo(m: UndoModel, cursor: CursorState, b0: Seq<u8>)
    requires
        spec_finish_group(m, cursor).undo.len() > 0,
        ops_faithful(b0, spec_finish_group(m, cursor).undo.last().ops),
    ensures
        ({
            let f = spec_finish_group(m, cursor);
            let g = f.undo.last();
            let b = apply_ops(b0, g.ops);
            let (u, c1) = spec_undo(m, cursor);
            let (r, c2) = spec_redo(u);
            &&& undo_fits(m, cursor, b)
            &&& undo_buffer(m, cursor, b) == b0
            &&& redo_fits(u, b0)
            &&& redo_buffer(u, b0) == b
            &&& r == f
            &&& c1 == Some(g.cursor_before)
            &&& c2 == Some(g.cursor_after)
        }),
{
    let f = spec_finish_group(m, cursor);
    let g = f.undo.last();
    lemma_revert_apply(b0, g.ops);
    lemma_faithful_fit(b0, g.ops);
    let (u, c1) = spec_undo(m, cursor);
    assert(u.redo.last() == g);
    let (r, c2) = spec_redo(u);
    assert(r.undo =~= f.undo);
    assert(r.redo =~= f.redo);
}

// ---------------------------------------------------------------------------
// UndoStack operations
// ---------------------------------------------------------------------------

fn push_capped(v: &mut Vec<Group>, g: Group)
    ensures
        groups_view(final(v)@) == push_group(groups_view(old(v)@), g@),
{
    let ghost before = v@;
    v.push(g);
    assert(groups_view(v@) =~= groups_view(before).push(g@));
    if v.len() > MAX_UNDO_GROUPS {
        let ghost pushed = v@;
        v.remove(0);
        assert(groups_view(v@) =~= groups_view(pushed).drop_first());
    }
}

impl UndoStack {
    pub fn new() -> (s: Self)
        ensures
            s@ == (UndoModel {
                undo: Seq::empty(),
                redo: Seq::empty(),
                pending: Seq::empty(),
                pending_cursor: None,
                context: GroupContext::Other,
                has_last_edit: false,
                saved_at: Some(0),
            }),
    {
        let s = UndoStack {
            undo: Vec::new(),
            redo: Vec::new(),
            pending: Vec::new(),
            pending_cursor: None,
            context: GroupContext::Other,
            last_edit: None,
            saved_at: Some(0),
        };
        assert(groups_view(s.undo@) =~= Seq::<GroupModel>::empty());
        assert(groups_view(s.redo@) =~= Seq::<GroupModel>::empty());
        assert(ops_view(s.pending@) =~= Seq::<OpModel>::empty());
        s
    }

    /// Record an edit. Whether the pause since the last edit ended the group
    /// depends on the clock: the result is one of the two outcomes, and the
    /// timed-out one when there was no earlier edit.
    pub fn record(&mut self, op: Operation, cursor_before: CursorState, ctx: GroupContext)
        ensures
            final(self)@ == spec_record(old(self)@, op@, cursor_before, ctx, true) || final(self)@
                == spec_record(old(self)@, op@, cursor_before, ctx, false),
            !old(self)@.has_last_edit ==> final(self)@ == spec_record(
                old(self)@,
                op@,
                cursor_before,
                ctx,
                true,
            ),
    {
        let timed_out = match &self.last_edit {
            None => true,
            Some(t) => {
                let d = instant_elapsed(t);
                duration_millis(&d) >= GROUP_TIMEOUT_MS
            },
        };
        let now = instant_now();
        self.record_at(op, cursor_before, ctx, timed_out, now);
    }

    /// Record an edit made at `now`, given whether the pause since the
    /// last edit reached the group timeout.
    pub fn record_at(
        &mut self,
        op: Operation,
        cursor_before: CursorState,
        ctx: GroupContext,
        timed_out: bool,
        now: Instant,
    )
        ensures
            final(self)@ == spec_record(old(self)@, op@, cursor_before, ctx, timed_out),
    {
        let should_split = self.pending.len() == 0 || ctx != self.context || ctx == GroupContext::Paste
            || ctx == GroupContext::Cut || ctx == GroupContext::Other || timed_out;
        if should_split && self.pending.len() > 0 {
            let mut ops: Vec<Operation> = Vec::new();
            std::mem::swap(&mut ops, &mut self.pending);
            let group_cursor_before = match self.pending_cursor {
                Some(c) => c,
                None => cursor_before,
            };
            push_capped(
                &mut self.undo,
                Group { ops, cursor_before: group_cursor_before, cursor_after: cursor_before },
            );
        }
        if self.pending.len() == 0 {
            self.pending_cursor = Some(cursor_before);
        }
        let ghost before = self.pending@;
        self.pending.push(op);
        assert(ops_view(self.pending@) =~= ops_view(before).push(op@));
        self.context = ctx;
        self.last_edit = Some(now);
        self.redo.clear();
        assert(ops_view(Seq::<Operation>::empty()) =~= Seq::<OpModel>::empty());
        assert(groups_view(self.redo@) =~= Seq::<GroupModel>::empty());
        assert(self@ =~= spec_record(old(self)@, op@, cursor_before, ctx, timed_out));
    }

    pub fn finish_group(&mut self, cursor_after: CursorState)
        ensures
            final(self)@ == spec_finish_group(old(self)@, cursor_after),
    {
        if self.pending.len() == 0 {
            return;
        }
        let mut ops: Vec<Operation> = Vec::new();
        std::mem::swap(&mut ops, &mut self.pending);
        let cursor_before = match self.pending_cursor {
            Some(c) => c,
            None => cursor_after,
        };
        push_capped(&mut self.undo, Group { ops, cursor_before, cursor_after });
        self.pending_cursor = None;
        assert(ops_view(self.pending@) =~= Seq::<OpModel>::empty());
        assert(self@ =~= spec_finish_group(old(self)@, cursor_after));
    }

    /// Undo the last group: its operations are inverted and applied last to
    /// first, and the cursor from before the group is returned.
    pub fn undo(&mut self, buf: &mut Buffer, current_cursor: CursorState) -> (r: Option<CursorState>)
        requires
            undo_fits(old(self)@, current_cursor, old(buf)@),
        ensures
            (final(self)@, r) == spec_undo(old(self)@, current_cursor),
            final(buf)@ == undo_buffer(old(self)@, current_cursor, old(buf)@),
    {
        self.finish_group(current_cursor);
        let ghost f = self@;
        let group = match self.undo.pop() {
            Some(g) => g,
            None => return None,
        };
        let ghost ops = group@.ops;
        let ghost b0 = buf@;
        assert(ops == f.undo.last().ops);
        let mut i = group.ops.len();
        assert(ops.take(i as int) =~= ops);
        while i > 0
            invariant
                i <= group.ops@.len(),
                ops == ops_view(group.ops@),
                revert_fits(buf@, ops.take(i as int)),
                revert_ops(buf@, ops.take(i as int)) == revert_ops(b0, ops),
            decreases i,
        {
            assert(ops.take(i as int).drop_last() =~= ops.take(i - 1));
            assert(ops.take(i as int).last() == group.ops@[i - 1]@);
            i = i - 1;
            let inv = group.ops[i].invert();
            apply_to(&inv, buf);
        }
        assert(ops.take(ops.len() as int) =~= ops);
        let before = group.cursor_before;
        let ghost g = group@;
        let ghost rd = self.redo@;
        self.redo.push(group);
        assert(groups_view(self.redo@) =~= groups_view(rd).push(g));
        assert(groups_view(self.undo@) =~= f.undo.drop_last());
        assert(self@ =~= spec_undo(old(self)@, current_cursor).0);
        Some(before)
    }

    /// Redo the last undone group: its operations are applied in order, and
    /// the cursor from after the group is returned.
    pub fn redo(&mut self, buf: &mut Buffer) -> (r: Option<CursorState>)
        requires
            redo_fits(old(self)@, old(buf)@),
        ensures
            (final(self)@, r) == spec_redo(old(self)@),
            final(buf)@ == redo_buffer(old(self)@, old(buf)@),
    {
        let ghost m = self@;
        let group = match self.redo.pop() {
            Some(g) => g,
            None => return None,
        };
        let ghost ops = group@.ops;
        let ghost b0 = buf@;
        assert(ops == m.redo.last().ops);
        let mut i: usize = 0;
        while i < group.ops.len()
            invariant
                i <= group.ops@.len(),
                ops == ops_view(group.ops@),
                ops_fit(b0, ops),
                buf@ == apply_ops(b0, ops.take(i as int)),
            decreases group.ops@.len() - i,
        {
            proof {
                lemma_fit_prefix(b0, ops, i + 1);
                assert(ops.take(i + 1).drop_last() =~= ops.take(i as int));
            }
            apply_to(&group.ops[i], buf);
            i = i + 1;
        }
        assert(ops.take(ops.len() as int) =~= ops);
        let after = group.cursor_after;
        let ghost g = group@;
        let ghost ud = self.undo@;
        self.undo.push(group);
        assert(groups_view(self.undo@) =~= groups_view(ud).push(g));
        assert(groups_view(self.redo@) =~= m.redo.drop_last());
        assert(self@ =~= spec_redo(m).0);
        Some(after)
    }

    /// Close the pending group and remember the current point as saved.
    pub fn mark_saved(&mut self, current_cursor: CursorState)
        ensures
            final(self)@ == (UndoModel {
                saved_at: Some(spec_finish_group(old(self)@, current_cursor).undo.len() as usize),
                ..spec_finish_group(old(self)@, current_cursor)
            }),
            spec_is_at_saved(final(self)@),
    {
        self.finish_group(current_cursor);
        self.saved_at = Some(self.undo.len());
    }

    /// Whether the history is at the saved point with nothing pending.
    pub fn is_at_saved(&self) -> (b: bool)
        ensures
            b == spec_is_at_saved(self@),
    {
        if self.pending.len() > 0 {
            return false;
        }
        match self.saved_at {
            Some(n) => n == self.undo.len(),
            None => false,
        }
    }
}


/// How recording groups edits. An edit of the same kind as the pending
/// ones (typing after typing, deleting after deleting), before the pause
/// runs out, joins them; any other edit first closes the pending edits
/// into an undo step ending at the new edit's cursor, and starts a new one
/// of its own. Either way the redo history is dropped.
pub proof fn lemma_record_grouping(m: UndoModel, op: OpModel, cursor_before: CursorState, ctx: GroupContext, timed_out: bool)
    ensures
        ({
            let r = spec_record(m, op, cursor_before, ctx, timed_out);
            let joins = m.pending.len() > 0 && ctx == m.context && !timed_out && (ctx == GroupContext::Typing || ctx
                == GroupContext::Deleting);
            &&& r.redo == Seq::<GroupModel>::empty()
            &&& r.context == ctx
            &&& joins ==> r.pending == m.pending.push(op) && r.undo == m.undo
            &&& (!joins && m.pending.len() > 0) ==> r.pending == seq![op] && r.undo == push_group(
                m.undo,
                GroupModel { ops: m.pending, cursor_before: m.pending_cursor.unwrap_or(cursor_before), cursor_after: cursor_before },
            )
            &&& m.pending.len() == 0 ==> r.pending == seq![op] && r.undo == m.undo
        }),
{
    let r = spec_record(m, op, cursor_before, ctx, timed_out);
    if m.pending.len() > 0 && !(ctx == m.context && !timed_out && (ctx == GroupContext::Typing || ctx == GroupContext::Deleting)) {
        assert(r.pending =~= seq![op]);
    }
    if m.pending.len() == 0 {
        assert(r.pending =~= seq![op]);
    }
}

} // verus!
