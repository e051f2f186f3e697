use vstd::prelude::*;
use crate::frame::{Frame, Pos, Size};
use crate::surface::Canvas;

verus! {

/// One operation on the frame stack of a drawing context.
pub enum StackOp {
    Save,
    Restore,
    Translate(Pos),
    Shrink(Size),
    Clip(Size),
}

/// The frames after one operation, as the context's methods state it.
pub open spec fn step(frames: Seq<Frame>, op: StackOp) -> Seq<Frame> {
    let last = frames.len() - 1;
    match op {
        StackOp::Save => frames.push(frames.last()),
        StackOp::Restore => frames.drop_last(),
        StackOp::Translate(d) => frames.update(last, frames.last().translated(d)),
        StackOp::Shrink(d) => frames.update(last, frames.last().shrunk(d)),
        StackOp::Clip(s) => frames.update(last, frames.last().clipped(s)),
    }
}

/// The frames after the operations of `ops`, first to last.
pub open spec fn run(frames: Seq<Frame>, ops: Seq<StackOp>) -> Seq<Frame>
    decreases ops.len(),
{
    if ops.len() == 0 {
        frames
    } else {
        run(step(frames, ops[0]), ops.drop_first())
    }
}

/// Saves minus restores.
pub open spec fn net(ops: Seq<StackOp>) -> int
    decreases ops.len(),
{
    if ops.len() == 0 {
        0
    } else {
        let d: int = match ops[0] {
            StackOp::Save => 1,
            StackOp::Restore => -1,
            _ => 0,
        };
        d + net(ops.drop_first())
    }
}

/// No prefix of `ops` restores more than `depth` frames beyond what it saved.
pub open spec fn stays_above(ops: Seq<StackOp>, depth: int) -> bool {
    forall|k: int| 0 <= k <= ops.len() ==> #[trigger] net(ops.take(k)) >= -depth
}

proof fn lemma_net_first(ops: Seq<StackOp>)
    requires
        ops.len() > 0,
    ensures
        net(ops.take(1)) == (match ops[0] {
            StackOp::Save => 1int,
            StackOp::Restore => -1int,
            _ => 0int,
        }),
{
    assert(ops.take(1).drop_first() =~= Seq::<StackOp>::empty());
    assert(ops.take(1)[0] == ops[0]);
    assert(net(Seq::<StackOp>::empty()) == 0);
}

proof fn lemma_net_take_step(ops: Seq<StackOp>, k: int)
    requires
        ops.len() > 0,
        1 <= k <= ops.len(),
    ensures
        net(ops.take(k)) == net(ops.take(1)) + net(ops.drop_first().take(k - 1)),
{
    assert(ops.take(k).drop_first() =~= ops.drop_first().take(k - 1));
    assert(ops.take(k)[0] == ops[0]);
    lemma_net_first(ops);
}

proof fn lemma_run_keeps_base(frames: Seq<Frame>, ops: Seq<StackOp>, m: int)
    requires
        0 <= m < frames.len(),
        stays_above(ops, frames.len() - 1 - m),
    ensures
        run(frames, ops).len() == frames.len() + net(ops),
        run(frames, ops).subrange(0, m) == frames.subrange(0, m),
    decreases ops.len(),
{
    if ops.len() > 0 {
        let next = step(frames, ops[0]);
        let rest = ops.drop_first();
        lemma_net_first(ops);
        assert(net(ops.take(1)) >= -(frames.len() - 1 - m));
        assert(next.len() == frames.len() + net(ops.take(1)));
        assert(stays_above(rest, next.len() - 1 - m)) by {
            assert forall|k: int| 0 <= k <= rest.len() implies #[trigger] net(rest.take(k)) >= -(next.len() - 1
                - m) by {
                lemma_net_take_step(ops, k + 1);
                assert(net(ops.take(k + 1)) >= -(frames.len() - 1 - m));
            }
        }
        lemma_run_keeps_base(next, rest, m);
        assert(next.subrange(0, m) =~= frames.subrange(0, m));
    }
}

/// A balanced scope restores the frames: after a save, operations that never
/// restore past it and save as often as they restore, and the matching
/// restore, the stack is what it was before the save.
pub proof fn law_balanced_scope_is_identity(frames: Seq<Frame>, inner: Seq<StackOp>)
    requires
        frames.len() >= 1,
        stays_above(inner, 0),
        net(inner) == 0,
    ensures
        run(frames, seq![StackOp::Save] + inner + seq![StackOp::Restore]) == frames,
{
    let ops = seq![StackOp::Save] + inner + seq![StackOp::Restore];
    let saved = frames.push(frames.last());
    assert(ops[0] == StackOp::Save);
    assert(ops.drop_first() =~= inner + seq![StackOp::Restore]);
    lemma_run_split(saved, inner, seq![StackOp::Restore]);
    lemma_run_keeps_base(saved, inner, frames.len() as int);
    let after = run(saved, inner);
    assert(saved.subrange(0, frames.len() as int) =~= frames);
    assert(seq![StackOp::Restore].drop_first() =~= Seq::<StackOp>::empty());
    assert(run(after.drop_last(), Seq::<StackOp>::empty()) == after.drop_last());
    assert(run(after, seq![StackOp::Restore]) == after.drop_last());
    assert(after.drop_last() =~= frames);
}

proof fn lemma_run_split(frames: Seq<Frame>, a: Seq<StackOp>, b: Seq<StackOp>)
    ensures
        run(frames, a + b) == run(run(frames, a), b),
    decreases a.len(),
{
    if a.len() > 0 {
        assert((a + b).drop_first() =~= a.drop_first() + b);
        assert((a + b)[0] == a[0]);
        lemma_run_split(step(frames, a[0]), a.drop_first(), b);
    } else {
        assert(a + b =~= b);
    }
}

/// Saving, translating by `d` and restoring leaves the frames as they were.
pub proof fn law_translate_in_scope_is_undone(frames: Seq<Frame>, d: Pos)
    requires
        frames.len() >= 1,
    ensures
        step(step(step(frames, StackOp::Save), StackOp::Translate(d)), StackOp::Restore) == frames,
{
    let saved = step(frames, StackOp::Save);
    assert(step(saved, StackOp::Translate(d)).drop_last() =~= frames);
}

/// A local point at or beyond the current frame's extent on either axis
/// never resolves.
pub proof fn law_outside_frame_never_resolves(cv: Canvas, f: Frame, p: Pos)
    requires
        p.0 >= f.size.0 || p.1 >= f.size.1,
    ensures
        cv.resolve(f, (p.0 as int, p.1 as int)) is None,
{
}

/// Translating by `d` leaves the size `max(0, size - d)` on each axis.
pub proof fn law_translate_size(f: Frame, d: Pos)
    ensures
        f.translated(d).size.0 == (if f.size.0 >= d.0 { f.size.0 - d.0 } else { 0 }),
        f.translated(d).size.1 == (if f.size.1 >= d.1 { f.size.1 - d.1 } else { 0 }),
        f.translated(d).size.0 >= 0,
        f.translated(d).size.1 >= 0,
{
}

/// The frame after clipping by each size of `sizes` in turn.
pub open spec fn clip_all(f: Frame, sizes: Seq<Size>) -> Frame
    decreases sizes.len(),
{
    if sizes.len() == 0 {
        f
    } else {
        clip_all(f.clipped(sizes[0]), sizes.drop_first())
    }
}

/// Clipping twice by the same size is clipping once, and two clips commute.
pub proof fn law_clip_idempotent_and_commutative(f: Frame, a: Size, b: Size)
    ensures
        f.clipped(a).clipped(a) == f.clipped(a),
        f.clipped(a).clipped(b) == f.clipped(b).clipped(a),
{
}

/// Clipping by a list of sizes, in whatever order, narrows the frame to the
/// component-wise minimum of its own size and all those sizes.
pub proof fn law_clip_all_is_minimum(f: Frame, sizes: Seq<Size>)
    ensures
        clip_all(f, sizes).translation == f.translation,
        clip_all(f, sizes).size.0 <= f.size.0,
        clip_all(f, sizes).size.1 <= f.size.1,
        forall|i: int| 0 <= i < sizes.len() ==> clip_all(f, sizes).size.0 <= (#[trigger] sizes[i]).0,
        forall|i: int| 0 <= i < sizes.len() ==> clip_all(f, sizes).size.1 <= (#[trigger] sizes[i]).1,
        clip_all(f, sizes).size.0 == f.size.0 || exists|i: int|
            0 <= i < sizes.len() && clip_all(f, sizes).size.0 == (#[trigger] sizes[i]).0,
        clip_all(f, sizes).size.1 == f.size.1 || exists|i: int|
            0 <= i < sizes.len() && clip_all(f, sizes).size.1 == (#[trigger] sizes[i]).1,
    decreases sizes.len(),
{
    if sizes.len() > 0 {
        let g = f.clipped(sizes[0]);
        let rest = sizes.drop_first();
        law_clip_all_is_minimum(g, rest);
        assert forall|i: int| 0 <= i < sizes.len() implies clip_all(f, sizes).size.0 <= (
        #[trigger] sizes[i]).0 by {
            if i > 0 {
                assert(sizes[i] == rest[i - 1]);
            }
        }
        assert forall|i: int| 0 <= i < sizes.len() implies clip_all(f, sizes).size.1 <= (
        #[trigger] sizes[i]).1 by {
            if i > 0 {
                assert(sizes[i] == rest[i - 1]);
            }
        }
        let r = clip_all(f, sizes);
        if r.size.0 != g.size.0 {
            let i = choose|i: int| 0 <= i < rest.len() && r.size.0 == (#[trigger] rest[i]).0;
            assert(sizes[i + 1] == rest[i]);
        } else if r.size.0 != f.size.0 {
            assert(r.size.0 == sizes[0].0);
        }
        if r.size.1 != g.size.1 {
            let i = choose|i: int| 0 <= i < rest.len() && r.size.1 == (#[trigger] rest[i]).1;
            assert(sizes[i + 1] == rest[i]);
        } else if r.size.1 != f.size.1 {
            assert(r.size.1 == sizes[0].1);
        }
    }
}

} // verus!
