use vstd::prelude::*;

use crate::tween::{EasingFunction, POS_LIMIT, Tween, fresh};

verus! {

/// Length of a glide to a new position, in milliseconds.
pub const GLIDE_DURATION: u32 = 100;

#[derive(Clone, Copy, Debug, PartialEq, Eq, Structural)]
pub enum CursorType {
    Carret,
    Cross,
}

/// `v` held inside the range that a tween's end point may take.
pub open spec fn clamp_pos_spec(v: int) -> int {
    if v < -POS_LIMIT {
        -POS_LIMIT as int
    } else if v > POS_LIMIT {
        POS_LIMIT as int
    } else {
        v
    }
}

pub fn clamp_pos(v: i64) -> (r: i64)
    ensures
        r == clamp_pos_spec(v as int),
{
    if v < -POS_LIMIT {
        -POS_LIMIT
    } else if v > POS_LIMIT {
        POS_LIMIT
    } else {
        v
    }
}

/// The glide of one axis from `start` to `target`.
pub open spec fn glide(start: int, target: int) -> Tween {
    fresh(clamp_pos_spec(start) as i64, target as i64, GLIDE_DURATION, EasingFunction::SmootherStep)
}

pub open spec fn tween_ok(t: Option<Tween>) -> bool {
    t is Some ==> t.unwrap().wf()
}

/// The value shown for one axis: the running tween's value, else the exact position.
pub open spec fn shown(t: Option<Tween>, exact: int) -> int {
    if t is Some {
        t.unwrap().value as int
    } else {
        exact
    }
}

/// A grid position with a glide of its pixel position toward the current cell.
/// Pixel values are in the units of `char_width` and `char_height`.
#[derive(Clone, Copy)]
pub struct Cursor {
    pub x: u32,
    pub y: u32,
    pub char_width: u16,
    pub char_height: u16,
    pub animation_x: Option<Tween>,
    pub animation_y: Option<Tween>,
    pub cursor_type: CursorType,
}

impl Cursor {
    pub open spec fn wf(self) -> bool {
        tween_ok(self.animation_x) && tween_ok(self.animation_y)
    }

    pub open spec fn real_x_spec(self) -> int {
        self.x * self.char_width
    }

    pub open spec fn real_y_spec(self) -> int {
        self.y * self.char_height
    }

    pub open spec fn computed_x_spec(self) -> int {
        shown(self.animation_x, self.real_x_spec())
    }

    pub open spec fn computed_y_spec(self) -> int {
        shown(self.animation_y, self.real_y_spec())
    }

    pub fn new(x: u32, y: u32, char_width: u16, char_height: u16) -> (r: Cursor)
        ensures
            r.x == x,
            r.y == y,
            r.char_width == char_width,
            r.char_height == char_height,
            r.animation_x is None,
            r.animation_y is None,
            r.cursor_type == CursorType::Carret,
            r.wf(),
    {
        Cursor {
            x,
            y,
            char_width,
            char_height,
            animation_x: None,
            animation_y: None,
            cursor_type: CursorType::Carret,
        }
    }

    /// The exact pixel column of the cell.
    pub fn real_x(&self) -> (r: i64)
        ensures
            r == self.real_x_spec(),
            0 <= r <= 0xffff_ffff * 0xffffnat,
    {
        proof {
            assert(self.x * self.char_width <= 0xffff_ffff * 0xffffnat) by (nonlinear_arith)
                requires
                    self.x <= 0xffff_ffff,
                    self.char_width <= 0xffff,
            ;
        }
        self.x as i64 * self.char_width as i64
    }

    pub fn real_y(&self) -> (r: i64)
        ensures
            r == self.real_y_spec(),
            0 <= r <= 0xffff_ffff * 0xffffnat,
    {
        proof {
            assert(self.y * self.char_height <= 0xffff_ffff * 0xffffnat) by (nonlinear_arith)
                requires
                    self.y <= 0xffff_ffff,
                    self.char_height <= 0xffff,
            ;
        }
        self.y as i64 * self.char_height as i64
    }

    /// The pixel column shown now.
    pub fn computed_x(&self) -> (r: i64)
        ensures
            r == self.computed_x_spec(),
    {
        match &self.animation_x {
            Some(a) => a.value,
            None => self.real_x(),
        }
    }

    pub fn computed_y(&self) -> (r: i64)
        ensures
            r == self.computed_y_spec(),
    {
        match &self.animation_y {
            Some(a) => a.value,
            None => self.real_y(),
        }
    }

    pub fn position(&self) -> (r: (i64, i64))
        ensures
            r == (self.computed_x_spec() as i64, self.computed_y_spec() as i64),
    {
        (self.computed_x(), self.computed_y())
    }

    /// Moves to cell `(x, y)` at once; when the cell changes, the shown position glides
    /// there from where it is now.
    pub fn move_to(&mut self, x: u32, y: u32)
        requires
            old(self).wf(),
        ensures
            final(self).x == x,
            final(self).y == y,
            final(self).char_width == old(self).char_width,
            final(self).char_height == old(self).char_height,
            final(self).cursor_type == old(self).cursor_type,
            final(self).wf(),
            x == old(self).x && y == old(self).y ==> final(self).animation_x == old(self).animation_x
                && final(self).animation_y == old(self).animation_y,
            x != old(self).x || y != old(self).y ==> final(self).animation_x == Some(
                glide(old(self).computed_x_spec(), x * old(self).char_width),
            ) && final(self).animation_y == Some(
                glide(old(self).computed_y_spec(), y * old(self).char_height),
            ),
    {
        if x != self.x || y != self.y {
            self.transition(x, y);
        }
        self.x = x;
        self.y = y;
    }

    fn transition(&mut self, x: u32, y: u32)
        requires
            old(self).wf(),
        ensures
            *final(self) == (Cursor {
                animation_x: Some(glide(old(self).computed_x_spec(), x * old(self).char_width)),
                animation_y: Some(glide(old(self).computed_y_spec(), y * old(self).char_height)),
                ..*old(self)
            }),
            final(self).wf(),
    {
        let target = Cursor { x, y, ..*self };
        let start_x = clamp_pos(self.computed_x());
        let start_y = clamp_pos(self.computed_y());
        let to_x = target.real_x();
        let to_y = target.real_y();
        self.animation_x = Some(Tween::new(start_x, to_x, GLIDE_DURATION, EasingFunction::SmootherStep));
        self.animation_y = Some(Tween::new(start_y, to_y, GLIDE_DURATION, EasingFunction::SmootherStep));
    }
}

} // verus!
