use vstd::prelude::*;

use crate::cursor::{Cursor, clamp_pos, glide, shown, tween_ok};
use crate::tween::Tween;
use crate::tween::EasingFunction;
use crate::cursor::GLIDE_DURATION;

verus! {

/// Largest magnitude of a viewport measure (size, margin, origin).
pub const METRIC_LIMIT: i64 = 1099511627776;

/// Largest scroll offset on either axis.
pub const SCROLL_LIMIT: i64 = 281474976710656;

/// Default margin between the cursor and the viewport's edge before scrolling.
pub const SAFE_ZONE: i64 = 30;

pub open spec fn metric_ok(v: int) -> bool {
    -METRIC_LIMIT <= v <= METRIC_LIMIT
}

/// `v` held inside `[0, SCROLL_LIMIT]`.
pub open spec fn clamp_scroll(v: int) -> int {
    if v < 0 {
        0
    } else if v > SCROLL_LIMIT {
        SCROLL_LIMIT as int
    } else {
        v
    }
}

/// A scrollable viewport: offset `(x, y)` from its origin `(initial_x, initial_y)`, with a
/// glide of the shown offset.
#[derive(Clone, Copy)]
pub struct Camera {
    pub x: i64,
    pub y: i64,
    pub width: i64,
    pub height: i64,
    pub initial_x: i64,
    pub initial_y: i64,
    pub safe_zone_size: i64,
    pub animation_x: Option<Tween>,
    pub animation_y: Option<Tween>,
}

impl Camera {
    pub open spec fn wf(self) -> bool {
        &&& 0 <= self.x <= SCROLL_LIMIT
        &&& 0 <= self.y <= SCROLL_LIMIT
        &&& metric_ok(self.width as int)
        &&& metric_ok(self.height as int)
        &&& metric_ok(self.initial_x as int)
        &&& metric_ok(self.initial_y as int)
        &&& metric_ok(self.safe_zone_size as int)
        &&& tween_ok(self.animation_x)
        &&& tween_ok(self.animation_y)
    }

    /// The camera after scrolling horizontally by `dx`.
    pub open spec fn moved_x(self, dx: int) -> Camera {
        let nx = clamp_scroll(self.x + dx);
        Camera {
            x: nx as i64,
            animation_x: Some(glide(self.computed_x_spec(), nx + self.initial_x)),
            animation_y: Some(glide(self.computed_y_spec(), self.y + self.initial_y)),
            ..self
        }
    }

    /// The camera after scrolling vertically by `dy`.
    pub open spec fn moved_y(self, dy: int) -> Camera {
        let ny = clamp_scroll(self.y + dy);
        Camera {
            y: ny as i64,
            animation_x: Some(glide(self.computed_x_spec(), self.x + self.initial_x)),
            animation_y: Some(glide(self.computed_y_spec(), ny + self.initial_y)),
            ..self
        }
    }

    /// The camera after bringing the cursor's exact position back inside the margins,
    /// horizontally then vertically; `padding` is the text area's inner margin.
    #[verifier::opaque]
    pub open spec fn follow(self, cursor: Cursor, padding: int) -> Camera {
        let off_x = cursor.real_x_spec() + self.initial_x - cursor.char_width;
        let c1 = if off_x < self.computed_x_spec() + self.safe_zone_size {
            self.moved_x(off_x - self.computed_x_spec() - self.safe_zone_size)
        } else if padding + cursor.real_x_spec() - self.computed_x_spec() > self.width - self.safe_zone_size {
            self.moved_x(padding + cursor.real_x_spec() - self.computed_x_spec() - self.width + self.safe_zone_size)
        } else {
            self
        };
        let off_y = cursor.real_y_spec() + c1.initial_y - cursor.char_height;
        if off_y < c1.computed_y_spec() + c1.safe_zone_size {
            c1.moved_y(off_y - c1.computed_y_spec() - c1.safe_zone_size)
        } else if padding + cursor.real_y_spec() - c1.computed_y_spec() > c1.height - c1.safe_zone_size {
            c1.moved_y(padding + cursor.real_y_spec() - c1.computed_y_spec() - c1.height + c1.safe_zone_size)
        } else {
            c1
        }
    }

    pub open spec fn computed_x_spec(self) -> int {
        shown(self.animation_x, self.x + self.initial_x)
    }

    pub open spec fn computed_y_spec(self) -> int {
        shown(self.animation_y, self.y + self.initial_y)
    }

    /// A viewport of the given window size, less the padding on both sides and the offset
    /// of the text area.
    pub fn new(width: i64, height: i64, offset_x: i64, offset_y: i64, padding: i64) -> (r: Camera)
        requires
            -METRIC_LIMIT / 4 <= width <= METRIC_LIMIT / 4,
            -METRIC_LIMIT / 4 <= height <= METRIC_LIMIT / 4,
            -METRIC_LIMIT / 4 <= offset_x <= METRIC_LIMIT / 4,
            -METRIC_LIMIT / 4 <= offset_y <= METRIC_LIMIT / 4,
            -METRIC_LIMIT / 4 <= padding <= METRIC_LIMIT / 4,
        ensures
            r == (Camera {
                x: 0,
                y: 0,
                width: (width - 2 * padding - offset_x) as i64,
                height: (height - 2 * padding - offset_y) as i64,
                initial_x: (-padding - offset_x) as i64,
                initial_y: (-padding - offset_y) as i64,
                safe_zone_size: SAFE_ZONE,
                animation_x: None,
                animation_y: None,
            }),
            r.wf(),
    {
        Camera {
            x: 0,
            y: 0,
            width: width - 2 * padding - offset_x,
            height: height - 2 * padding - offset_y,
            initial_x: -padding - offset_x,
            initial_y: -padding - offset_y,
            safe_zone_size: SAFE_ZONE,
            animation_x: None,
            animation_y: None,
        }
    }

    pub fn reset(&mut self)
        ensures
            *final(self) == (Camera { x: 0, y: 0, ..*old(self) }),
    {
        self.x = 0;
        self.y = 0;
    }

    pub fn on_resize(&mut self, width: u32, height: u32)
        ensures
            *final(self) == (Camera { width: width as i64, height: height as i64, ..*old(self) }),
    {
        self.width = width as i64;
        self.height = height as i64;
    }

    /// Scrolls horizontally by `dx`, holding the offset inside `[0, SCROLL_LIMIT]`.
    pub fn move_x(&mut self, dx: i128)
        requires
            old(self).wf(),
        ensures
            *final(self) == old(self).moved_x(dx as int),
            final(self).wf(),
    {
        let new_x: i64 = if dx <= -(self.x as i128) {
            0
        } else if dx >= (SCROLL_LIMIT - self.x) as i128 {
            SCROLL_LIMIT
        } else {
            (self.x as i128 + dx) as i64
        };
        self.transition(new_x + self.initial_x, self.y + self.initial_y);
        self.x = new_x;
    }

    /// Scrolls vertically by `dy`, holding the offset inside `[0, SCROLL_LIMIT]`.
    pub fn move_y(&mut self, dy: i128)
        requires
            old(self).wf(),
        ensures
            *final(self) == old(self).moved_y(dy as int),
            final(self).wf(),
    {
        let new_y: i64 = if dy <= -(self.y as i128) {
            0
        } else if dy >= (SCROLL_LIMIT - self.y) as i128 {
            SCROLL_LIMIT
        } else {
            (self.y as i128 + dy) as i64
        };
        self.transition(self.x + self.initial_x, new_y + self.initial_y);
        self.y = new_y;
    }

    pub fn computed_x(&self) -> (r: i64)
        requires
            self.wf(),
        ensures
            r == self.computed_x_spec(),
    {
        match &self.animation_x {
            Some(a) => a.value,
            None => self.x + self.initial_x,
        }
    }

    pub fn computed_y(&self) -> (r: i64)
        requires
            self.wf(),
        ensures
            r == self.computed_y_spec(),
    {
        match &self.animation_y {
            Some(a) => a.value,
            None => self.y + self.initial_y,
        }
    }

    pub fn position(&self) -> (r: (i64, i64))
        requires
            self.wf(),
        ensures
            r == (self.computed_x_spec() as i64, self.computed_y_spec() as i64),
    {
        (self.computed_x(), self.computed_y())
    }

    /// The cursor's exact column in viewport terms, one cell to its left.
    pub fn get_cursor_x_with_offset(&self, cursor: &Cursor) -> (r: i64)
        requires
            self.wf(),
        ensures
            r == cursor.real_x_spec() + self.initial_x - cursor.char_width,
    {
        cursor.real_x() + self.initial_x - cursor.char_width as i64
    }

    /// The cursor's exact row in viewport terms, one cell above it.
    pub fn get_cursor_y_with_offset(&self, cursor: &Cursor) -> (r: i64)
        requires
            self.wf(),
        ensures
            r == cursor.real_y_spec() + self.initial_y - cursor.char_height,
    {
        cursor.real_y() + self.initial_y - cursor.char_height as i64
    }

    fn transition(&mut self, x: i64, y: i64)
        requires
            old(self).wf(),
            -SCROLL_LIMIT - METRIC_LIMIT <= x <= SCROLL_LIMIT + METRIC_LIMIT,
            -SCROLL_LIMIT - METRIC_LIMIT <= y <= SCROLL_LIMIT + METRIC_LIMIT,
        ensures
            *final(self) == (Camera {
                animation_x: Some(glide(old(self).computed_x_spec(), x as int)),
                animation_y: Some(glide(old(self).computed_y_spec(), y as int)),
                ..*old(self)
            }),
            final(self).wf(),
    {
        let start_x = clamp_pos(self.computed_x());
        let start_y = clamp_pos(self.computed_y());
        self.animation_x = Some(Tween::new(start_x, x, GLIDE_DURATION, EasingFunction::SmootherStep));
        self.animation_y = Some(Tween::new(start_y, y, GLIDE_DURATION, EasingFunction::SmootherStep));
    }
}

} // verus!
