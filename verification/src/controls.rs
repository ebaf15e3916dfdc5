//! How the viewer reacts to input: zoom by the wheel, orbit by dragging.
//!
//! The state counts in whole steps: wheel clicks for the distance of the
//! camera, terminal cells for its yaw and pitch. What a step is worth in
//! distance or angle is the caller's to say.

use vstd::prelude::*;

verus! {

/// What the input source reports.
#[derive(Clone, Copy, Debug, PartialEq, Eq)]
pub enum Input {
    /// The key that ends the viewer.
    Quit,
    /// The wheel was turned up: move the camera in.
    ScrollUp,
    /// The wheel was turned down: move the camera out.
    ScrollDown,
    /// The pointer is at this cell, with the left button held.
    Drag { column: u16, row: u16 },
    /// Anything else.
    Other,
}

/// Where the controls stand.
#[derive(Clone, Copy, Debug, PartialEq, Eq)]
pub struct Controls {
    /// Steps that the camera has moved out (or, if negative, in).
    pub zoom: i32,
    /// The camera moves in only while `zoom` is above this.
    pub nearest: i32,
    /// The camera moves out only while `zoom` is below this.
    pub farthest: i32,
    /// Cells that the pointer was dragged to the right, all drags added up.
    pub turn: i64,
    /// Cells that the pointer was dragged down, all drags added up.
    pub tilt: i64,
    /// The cell where the pointer was seen last.
    pub pointer: (u16, u16),
    /// Whether the viewer goes on.
    pub running: bool,
}

/// `v` held to the range of `i64`.
pub open spec fn clamp_i64(v: int) -> int {
    if v < i64::MIN {
        i64::MIN as int
    } else if v > i64::MAX {
        i64::MAX as int
    } else {
        v
    }
}

impl Controls {
    /// The controls after an input.
    ///
    /// Quit stops the viewer. The wheel moves the camera one step, out
    /// while it is short of `farthest` and in while it is beyond `nearest`.
    /// A drag adds the way from the cell where the pointer was seen last to
    /// `turn` and `tilt`, and remembers the new cell. Nothing else changes
    /// anything.
    pub open spec fn reacted(self, input: Input) -> Controls {
        match input {
            Input::Quit => Controls { running: false, ..self },
            Input::ScrollDown => if self.zoom < self.farthest {
                Controls { zoom: (self.zoom + 1) as i32, ..self }
            } else {
                self
            },
            Input::ScrollUp => if self.zoom > self.nearest {
                Controls { zoom: (self.zoom - 1) as i32, ..self }
            } else {
                self
            },
            Input::Drag { column, row } => Controls {
                turn: clamp_i64(self.turn + (column - self.pointer.0)) as i64,
                tilt: clamp_i64(self.tilt + (row - self.pointer.1)) as i64,
                pointer: (column, row),
                ..self
            },
            Input::Other => self,
        }
    }

    /// Controls at rest: nothing zoomed, nothing dragged, the pointer in
    /// the corner, between the two ends of the zoom.
    pub fn new(nearest: i32, farthest: i32) -> (controls: Controls)
        ensures
            controls == (Controls {
                zoom: 0,
                nearest,
                farthest,
                turn: 0,
                tilt: 0,
                pointer: (0, 0),
                running: true,
            }),
    {
        Controls {
            zoom: 0,
            nearest,
            farthest,
            turn: 0,
            tilt: 0,
            pointer: (0, 0),
            running: true,
        }
    }

    /// Takes an input and gives the controls after it.
    pub fn react(self, input: Input) -> (next: Controls)
        ensures
            next == self.reacted(input),
    {
        match input {
            Input::Quit => Controls { running: false, ..self },
            Input::ScrollDown => {
                if self.zoom < self.farthest {
                    Controls { zoom: self.zoom + 1, ..self }
                } else {
                    self
                }
            },
            Input::ScrollUp => {
                if self.zoom > self.nearest {
                    Controls { zoom: self.zoom - 1, ..self }
                } else {
                    self
                }
            },
            Input::Drag { column, row } => {
                let dx: i64 = column as i64 - self.pointer.0 as i64;
                let dy: i64 = row as i64 - self.pointer.1 as i64;
                Controls {
                    turn: add_held(self.turn, dx),
                    tilt: add_held(self.tilt, dy),
                    pointer: (column, row),
                    ..self
                }
            },
            Input::Other => self,
        }
    }
}

/// The sum of `total` and `step`, held to the range of `i64`.
fn add_held(total: i64, step: i64) -> (sum: i64)
    ensures
        sum == clamp_i64(total + step),
{
    match total.checked_add(step) {
        Some(sum) => sum,
        None => if step > 0 {
            i64::MAX
        } else {
            i64::MIN
        },
    }
}

/// The wheel never takes the camera beyond the ends of the zoom: a zoom
/// that lies between them stays between them, whatever the input.
pub proof fn lemma_zoom_stays_in_range(controls: Controls, input: Input)
    requires
        controls.nearest <= controls.zoom <= controls.farthest,
    ensures
        controls.reacted(input).nearest == controls.nearest,
        controls.reacted(input).farthest == controls.farthest,
        controls.nearest <= controls.reacted(input).zoom <= controls.farthest,
{
}

/// Once stopped, the viewer stays stopped, and only quitting stops it.
pub proof fn lemma_running(controls: Controls, input: Input)
    ensures
        controls.reacted(input).running == (controls.running && input != Input::Quit),
{
}

} // verus!
