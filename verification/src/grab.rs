//! The two state machines that a surface carries through an interactive
//! resize: the resize itself, and the move that may follow it.

use vstd::prelude::*;
use crate::geometry::{clip, clip_to_i32, Point, Size};
use crate::surface::{
    MoveAfterResizeData, MoveAfterResizeState, ResizeData, ResizeEdge, ResizeState, Serial,
    SurfaceState,
};

verus! {

impl ResizeEdge {
    /// The resize drags the top or the left edge: the corner that the
    /// window's location names moves.
    pub open spec fn spec_moves_origin(self) -> bool {
        self.top || self.left
    }

    #[verifier::when_used_as_spec(spec_moves_origin)]
    pub fn moves_origin(self) -> (b: bool)
        ensures
            b == self.spec_moves_origin(),
    {
        self.top || self.left
    }
}

impl ResizeData {
    /// Where a window that is now at `location` with extent `size` has to be
    /// for the edges that the resize does not drag to stay where they were:
    /// a dragged left edge puts `x` at the initial `x` plus the width lost,
    /// a dragged top edge does the same for `y`. `None` when neither is
    /// dragged.
    pub open spec fn spec_compensated(self, location: Point, size: Size) -> Option<Point> {
        if self.edges.spec_moves_origin() {
            Some(
                Point {
                    x: if self.edges.left {
                        clip(
                            self.initial_window_location.x + clip(
                                self.initial_window_size.w - size.w,
                            ),
                        ) as i32
                    } else {
                        location.x
                    },
                    y: if self.edges.top {
                        clip(
                            self.initial_window_location.y + clip(
                                self.initial_window_size.h - size.h,
                            ),
                        ) as i32
                    } else {
                        location.y
                    },
                },
            )
        } else {
            None
        }
    }

    #[verifier::when_used_as_spec(spec_compensated)]
    pub fn compensated(self, location: Point, size: Size) -> (p: Option<Point>)
        ensures
            p == self.spec_compensated(location, size),
    {
        if self.edges.moves_origin() {
            let x = if self.edges.left {
                let lost = clip_to_i32(self.initial_window_size.w as i64 - size.w as i64);
                clip_to_i32(self.initial_window_location.x as i64 + lost as i64)
            } else {
                location.x
            };
            let y = if self.edges.top {
                let lost = clip_to_i32(self.initial_window_size.h as i64 - size.h as i64);
                clip_to_i32(self.initial_window_location.y as i64 + lost as i64)
            } else {
                location.y
            };
            Some(Point { x, y })
        } else {
            None
        }
    }
}

impl ResizeState {
    /// What the resize remembers of its start, while there is one.
    pub open spec fn spec_data(self) -> Option<ResizeData> {
        match self {
            ResizeState::NotResizing => None,
            ResizeState::Resizing(data) => Some(data),
            ResizeState::WaitingForFinalAck(data, _) => Some(data),
            ResizeState::WaitingForCommit(data) => Some(data),
        }
    }

    #[verifier::when_used_as_spec(spec_data)]
    pub fn data(self) -> (d: Option<ResizeData>)
        ensures
            d == self.spec_data(),
    {
        match self {
            ResizeState::NotResizing => None,
            ResizeState::Resizing(data) => Some(data),
            ResizeState::WaitingForFinalAck(data, _) => Some(data),
            ResizeState::WaitingForCommit(data) => Some(data),
        }
    }

    /// A resize request arrived: the drag begins, whatever went on before.
    pub open spec fn spec_begin(data: ResizeData) -> ResizeState {
        ResizeState::Resizing(data)
    }

    #[verifier::when_used_as_spec(spec_begin)]
    pub fn begin(data: ResizeData) -> (s: ResizeState)
        ensures
            s == ResizeState::spec_begin(data),
    {
        ResizeState::Resizing(data)
    }

    /// The drag ended and the final configure went out under `serial`: a
    /// resize in progress now waits for the acknowledgement of that serial.
    pub open spec fn spec_released(self, serial: Serial) -> ResizeState {
        match self {
            ResizeState::Resizing(data) => ResizeState::WaitingForFinalAck(data, serial),
            _ => self,
        }
    }

    #[verifier::when_used_as_spec(spec_released)]
    pub fn released(self, serial: Serial) -> (s: ResizeState)
        ensures
            s == self.spec_released(serial),
    {
        match self {
            ResizeState::Resizing(data) => ResizeState::WaitingForFinalAck(data, serial),
            _ => self,
        }
    }

    /// The client acknowledged the configure of `serial`: a resize that
    /// waits for just that serial now waits for the commit.
    pub open spec fn spec_acknowledged(self, serial: Serial) -> ResizeState {
        match self {
            ResizeState::WaitingForFinalAck(data, awaited) => if awaited == serial {
                ResizeState::WaitingForCommit(data)
            } else {
                self
            },
            _ => self,
        }
    }

    #[verifier::when_used_as_spec(spec_acknowledged)]
    pub fn acknowledged(self, serial: Serial) -> (s: ResizeState)
        ensures
            s == self.spec_acknowledged(serial),
    {
        match self {
            ResizeState::WaitingForFinalAck(data, awaited) => if awaited == serial {
                ResizeState::WaitingForCommit(data)
            } else {
                self
            },
            _ => self,
        }
    }

    /// The surface committed: a resize that waited for the commit is over.
    pub open spec fn spec_committed(self) -> ResizeState {
        match self {
            ResizeState::WaitingForCommit(_) => ResizeState::NotResizing,
            _ => self,
        }
    }

    #[verifier::when_used_as_spec(spec_committed)]
    pub fn committed(self) -> (s: ResizeState)
        ensures
            s == self.spec_committed(),
    {
        match self {
            ResizeState::WaitingForCommit(_) => ResizeState::NotResizing,
            _ => self,
        }
    }
}

impl MoveAfterResizeState {
    /// Schedules a move to `target` for the next commit.
    pub open spec fn spec_scheduled(target: Point) -> MoveAfterResizeState {
        MoveAfterResizeState::WaitingForCommit(
            MoveAfterResizeData { target_window_location: target },
        )
    }

    #[verifier::when_used_as_spec(spec_scheduled)]
    pub fn scheduled(target: Point) -> (s: MoveAfterResizeState)
        ensures
            s == MoveAfterResizeState::spec_scheduled(target),
    {
        MoveAfterResizeState::WaitingForCommit(
            MoveAfterResizeData { target_window_location: target },
        )
    }

    /// The surface committed: a scheduled move is now in effect.
    pub open spec fn spec_committed(self) -> MoveAfterResizeState {
        match self {
            MoveAfterResizeState::WaitingForCommit(data) => MoveAfterResizeState::Current(data),
            _ => self,
        }
    }

    #[verifier::when_used_as_spec(spec_committed)]
    pub fn committed(self) -> (s: MoveAfterResizeState)
        ensures
            s == self.spec_committed(),
    {
        match self {
            MoveAfterResizeState::WaitingForCommit(data) => MoveAfterResizeState::Current(data),
            _ => self,
        }
    }

    /// The location a scheduled move asks for.
    pub open spec fn spec_due(self) -> Option<Point> {
        match self {
            MoveAfterResizeState::WaitingForCommit(data) => Some(data.target_window_location),
            _ => None,
        }
    }

    #[verifier::when_used_as_spec(spec_due)]
    pub fn due(self) -> (p: Option<Point>)
        ensures
            p == self.spec_due(),
    {
        match self {
            MoveAfterResizeState::WaitingForCommit(data) => Some(data.target_window_location),
            _ => None,
        }
    }
}

impl SurfaceState {
    /// Where the commit of a mapped window puts the window, if anywhere: to
    /// the target of a scheduled move if there is one, else to where a
    /// resize by the top or left edge needs it.
    pub open spec fn spec_resolved_location(self, location: Point, size: Size) -> Option<Point> {
        match self.move_after_resize_state.spec_due() {
            Some(target) => Some(target),
            None => match self.resize_state.spec_data() {
                Some(data) => data.spec_compensated(location, size),
                None => None,
            },
        }
    }

    /// The state after the commit of a mapped window: both machines have
    /// taken their commit step.
    pub open spec fn spec_settled(self) -> SurfaceState {
        SurfaceState {
            resize_state: self.resize_state.spec_committed(),
            move_after_resize_state: self.move_after_resize_state.spec_committed(),
            ..self
        }
    }

    #[verifier::when_used_as_spec(spec_resolved_location)]
    pub fn resolved_location(self, location: Point, size: Size) -> (p: Option<Point>)
        ensures
            p == self.spec_resolved_location(location, size),
    {
        match self.move_after_resize_state.due() {
            Some(target) => Some(target),
            None => match self.resize_state.data() {
                Some(data) => data.compensated(location, size),
                None => None,
            },
        }
    }

    #[verifier::when_used_as_spec(spec_settled)]
    pub fn settled(self) -> (s: SurfaceState)
        ensures
            s == self.spec_settled(),
    {
        SurfaceState {
            resize_state: self.resize_state.committed(),
            move_after_resize_state: self.move_after_resize_state.committed(),
            ..self
        }
    }
}

/// A resize walks its states in one order only: from the request through
/// release and the matching acknowledgement to the commit, which ends it.
pub proof fn lemma_resize_lifecycle(data: ResizeData, serial: Serial)
    ensures
        ResizeState::spec_begin(data).spec_released(serial).spec_acknowledged(serial).spec_committed()
            == ResizeState::NotResizing,
        ResizeState::spec_begin(data).spec_committed() == ResizeState::Resizing(data),
        ResizeState::spec_begin(data).spec_released(serial).spec_committed()
            == ResizeState::WaitingForFinalAck(data, serial),
        forall|other: Serial|
            other != serial ==> #[trigger] ResizeState::spec_begin(data).spec_released(
                serial,
            ).spec_acknowledged(other) == ResizeState::WaitingForFinalAck(data, serial),
{
}

/// A scheduled move takes effect with the first commit and stays in effect.
pub proof fn lemma_move_after_resize_latches(target: Point)
    ensures
        MoveAfterResizeState::spec_scheduled(target).spec_committed() == MoveAfterResizeState::Current(
            MoveAfterResizeData { target_window_location: target },
        ),
        MoveAfterResizeState::spec_scheduled(target).spec_committed().spec_committed()
            == MoveAfterResizeState::spec_scheduled(target).spec_committed(),
{
}

} // verus!
