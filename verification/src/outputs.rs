//! Where outputs go when one is added: side by side from the left, those
//! that the configuration names first and in its order, then the others,
//! the newest first.

use vstd::prelude::*;
use crate::geometry::{clip, clip_to_i32};

verus! {

/// An output, or an entry of the configuration: a name and a width.
#[derive(Clone, Copy, Debug, PartialEq, Eq, Structural)]
pub struct OutputSlot {
    pub id: u32,
    pub width: i32,
}

/// Where an output goes: the horizontal coordinate of its left edge.
#[derive(Clone, Copy, Debug, PartialEq, Eq, Structural)]
pub struct OutputPlacement {
    pub id: u32,
    pub x: i32,
}

/// The position of the first output of that name, or the number of outputs
/// where none has it.
pub open spec fn position_of(outputs: Seq<OutputSlot>, id: u32) -> int
    decreases outputs.len(),
{
    if outputs.len() == 0 {
        0
    } else if outputs[0].id == id {
        0
    } else {
        1 + position_of(outputs.skip(1), id)
    }
}

/// The outputs side by side from `x` on, the last of them first.
pub open spec fn placed_rest(outputs: Seq<OutputSlot>, x: int) -> Seq<OutputPlacement>
    decreases outputs.len(),
{
    if outputs.len() == 0 {
        Seq::empty()
    } else {
        seq![OutputPlacement { id: outputs.last().id, x: x as i32 }] + placed_rest(
            outputs.drop_last(),
            clip(x + outputs.last().width),
        )
    }
}

/// The outputs side by side from `x` on: for each entry of the layout in
/// turn the first output of its name, which takes the width that the entry
/// gives; then the outputs that are left, the last first, each with its own
/// width.
pub open spec fn placed(layout: Seq<OutputSlot>, outputs: Seq<OutputSlot>, x: int) -> Seq<
    OutputPlacement,
>
    decreases layout.len(),
{
    if layout.len() == 0 {
        placed_rest(outputs, x)
    } else {
        let at = position_of(outputs, layout[0].id);
        if 0 <= at < outputs.len() {
            seq![OutputPlacement { id: layout[0].id, x: x as i32 }] + placed(
                layout.skip(1),
                outputs.remove(at),
                clip(x + layout[0].width),
            )
        } else {
            placed(layout.skip(1), outputs, x)
        }
    }
}

/// The position of the first output of that name.
pub fn find_output(outputs: &Vec<OutputSlot>, id: u32) -> (r: Option<usize>)
    ensures
        match r {
            Some(i) => i < outputs@.len() && i as int == position_of(outputs@, id),
            None => position_of(outputs@, id) == outputs@.len(),
        },
{
    let n = outputs.len();
    let mut i: usize = 0;
    proof {
        assert(outputs@.skip(0) == outputs@);
    }
    while i < n
        invariant
            i <= n,
            n == outputs@.len(),
            position_of(outputs@, id) == i + position_of(outputs@.skip(i as int), id),
        decreases n - i,
    {
        proof {
            assert(outputs@.skip(i as int)[0] == outputs@[i as int]);
            assert(outputs@.skip(i as int).skip(1) == outputs@.skip(i + 1));
        }
        if outputs[i].id == id {
            return Some(i);
        }
        i += 1;
    }
    None
}

/// Places the outputs side by side from the left edge of the desktop.
/// `layout` is the configuration, `outputs` are the outputs that are there,
/// the new one last.
pub fn place_outputs(layout: &Vec<OutputSlot>, outputs: Vec<OutputSlot>) -> (r: Vec<OutputPlacement>)
    ensures
        r@ == placed(layout@, outputs@, 0),
{
    let ghost all = outputs@;
    let mut outputs = outputs;
    let mut r: Vec<OutputPlacement> = Vec::new();
    let mut x: i32 = 0;
    let n = layout.len();
    let mut i: usize = 0;
    proof {
        assert(layout@.skip(0) == layout@);
    }
    while i < n
        invariant
            i <= n,
            n == layout@.len(),
            r@ + placed(layout@.skip(i as int), outputs@, x as int) == placed(layout@, all, 0),
        decreases n - i,
    {
        let entry = layout[i];
        let ghost rest = layout@.skip(i as int);
        proof {
            assert(rest[0] == entry);
            assert(rest.skip(1) == layout@.skip(i + 1));
        }
        match find_output(&outputs, entry.id) {
            Some(at) => {
                let ghost before = outputs@;
                let ghost done = r@;
                let _ = outputs.remove(at);
                r.push(OutputPlacement { id: entry.id, x });
                let next = clip_to_i32(x as i64 + entry.width as i64);
                proof {
                    let tail = placed(rest.skip(1), before.remove(at as int), next as int);
                    assert(placed(rest, before, x as int) == seq![
                        OutputPlacement { id: entry.id, x },
                    ] + tail);
                    assert(r@ + tail =~= done + (seq![OutputPlacement { id: entry.id, x }] + tail));
                }
                x = next;
            },
            None => {},
        }
        i += 1;
    }
    proof {
        assert(layout@.skip(n as int).len() == 0);
    }
    while outputs.len() > 0
        invariant
            r@ + placed_rest(outputs@, x as int) == placed(layout@, all, 0),
        decreases outputs.len(),
    {
        let ghost before = outputs@;
        let ghost so_far = r@;
        let last = match outputs.pop() {
            Some(o) => o,
            None => {
                return r;
            },
        };
        r.push(OutputPlacement { id: last.id, x });
        let next = clip_to_i32(x as i64 + last.width as i64);
        proof {
            assert(before.last() == last);
            assert(before.drop_last() == outputs@);
            let tail = placed_rest(outputs@, next as int);
            assert(placed_rest(before, x as int) == seq![OutputPlacement { id: last.id, x }] + tail);
            assert(r@ + tail =~= so_far + (seq![OutputPlacement { id: last.id, x }] + tail));
        }
        x = next;
    }
    proof {
        assert(r@ + Seq::<OutputPlacement>::empty() =~= r@);
    }
    r
}

} // verus!
