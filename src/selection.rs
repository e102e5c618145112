use vstd::prelude::*;

use crate::cursor::{GLIDE_DURATION, shown, tween_ok};
use crate::line::{Line, doc_of};
use crate::range::{GridPos, Range, rows_fit};
use crate::tween::{EasingFunction, Tween, fresh};

verus! {

/// The glide of one end of the highlight from cell coordinate `a` to `b`, `size` units each.
pub open spec fn end_glide(a: u32, b: u32, size: u16) -> Tween {
    fresh((a * size) as i64, (b * size) as i64, GLIDE_DURATION, EasingFunction::SmootherStep)
}

fn cell_pixel(a: u32, size: u16) -> (r: i64)
    ensures
        r == a * size,
        0 <= r <= 0xffff_ffff * 0xffffnat,
{
    proof {
        assert(a * size <= 0xffff_ffff * 0xffffnat) by (nonlinear_arith)
            requires
                a <= 0xffff_ffff,
                size <= 0xffff,
        ;
    }
    a as i64 * size as i64
}

/// The selected range, with glides of both ends of its highlight when an end jumps.
#[derive(Clone, Copy)]
pub struct Selection {
    pub range: Range,
    pub char_width: u16,
    pub char_height: u16,
    pub start_animation_x: Option<Tween>,
    pub start_animation_y: Option<Tween>,
    pub end_animation_x: Option<Tween>,
    pub end_animation_y: Option<Tween>,
}

impl Selection {
    pub open spec fn wf(self) -> bool {
        &&& tween_ok(self.start_animation_x)
        &&& tween_ok(self.start_animation_y)
        &&& tween_ok(self.end_animation_x)
        &&& tween_ok(self.end_animation_y)
    }

    pub fn new(char_width: u16, char_height: u16) -> (r: Selection)
        ensures
            r.range == (Range { start: None, end: None }),
            r.char_width == char_width,
            r.char_height == char_height,
            r.wf(),
    {
        Selection {
            range: Range { start: None, end: None },
            char_width,
            char_height,
            start_animation_x: None,
            start_animation_y: None,
            end_animation_x: None,
            end_animation_y: None,
        }
    }

    /// The earlier end, when the selection is valid.
    pub fn start(&self) -> (r: Option<GridPos>)
        ensures
            r == (if self.range.valid() { Some(self.range.real_start_spec()) } else { None }),
    {
        self.range.get_real_start()
    }

    /// The later end, when the selection is valid.
    pub fn end(&self) -> (r: Option<GridPos>)
        ensures
            r == (if self.range.valid() { Some(self.range.real_end_spec()) } else { None }),
    {
        self.range.get_real_end()
    }

    pub fn set_start(&mut self, position: GridPos)
        requires
            old(self).wf(),
        ensures
            final(self).range == (Range { start: Some(position), end: old(self).range.end }),
            final(self).char_width == old(self).char_width,
            final(self).char_height == old(self).char_height,
            final(self).end_animation_x == old(self).end_animation_x,
            final(self).end_animation_y == old(self).end_animation_y,
            old(self).range.start is None ==> final(self).start_animation_x == old(
                self,
            ).start_animation_x && final(self).start_animation_y == old(self).start_animation_y,
            old(self).range.start is Some ==> final(self).start_animation_x == Some(
                end_glide(old(self).range.start.unwrap().x, position.x, old(self).char_width),
            ) && final(self).start_animation_y == Some(
                end_glide(old(self).range.start.unwrap().y, position.y, old(self).char_height),
            ),
            final(self).wf(),
    {
        if let Some(start) = self.range.start {
            let ax = Tween::new(
                cell_pixel(start.x, self.char_width),
                cell_pixel(position.x, self.char_width),
                GLIDE_DURATION,
                EasingFunction::SmootherStep,
            );
            let ay = Tween::new(
                cell_pixel(start.y, self.char_height),
                cell_pixel(position.y, self.char_height),
                GLIDE_DURATION,
                EasingFunction::SmootherStep,
            );
            self.start_animation_x = Some(ax);
            self.start_animation_y = Some(ay);
        }
        self.range.start(position);
    }

    pub fn set_end(&mut self, position: GridPos)
        requires
            old(self).wf(),
        ensures
            final(self).range == (Range { start: old(self).range.start, end: Some(position) }),
            final(self).char_width == old(self).char_width,
            final(self).char_height == old(self).char_height,
            final(self).start_animation_x == old(self).start_animation_x,
            final(self).start_animation_y == old(self).start_animation_y,
            old(self).range.end is None ==> final(self).end_animation_x == old(self).end_animation_x
                && final(self).end_animation_y == old(self).end_animation_y,
            old(self).range.end is Some ==> final(self).end_animation_x == Some(
                end_glide(old(self).range.end.unwrap().x, position.x, old(self).char_width),
            ) && final(self).end_animation_y == Some(
                end_glide(old(self).range.end.unwrap().y, position.y, old(self).char_height),
            ),
            final(self).wf(),
    {
        if let Some(end) = self.range.end {
            let ax = Tween::new(
                cell_pixel(end.x, self.char_width),
                cell_pixel(position.x, self.char_width),
                GLIDE_DURATION,
                EasingFunction::SmootherStep,
            );
            let ay = Tween::new(
                cell_pixel(end.y, self.char_height),
                cell_pixel(position.y, self.char_height),
                GLIDE_DURATION,
                EasingFunction::SmootherStep,
            );
            self.end_animation_x = Some(ax);
            self.end_animation_y = Some(ay);
        }
        self.range.end(position);
    }

    pub fn set(&mut self, start: GridPos, end: GridPos)
        requires
            old(self).wf(),
        ensures
            final(self).range == (Range { start: Some(start), end: Some(end) }),
            final(self).char_width == old(self).char_width,
            final(self).char_height == old(self).char_height,
            final(self).wf(),
    {
        self.set_start(start);
        self.set_end(end);
    }

    pub fn is_valid(&self) -> (r: bool)
        ensures
            r == self.range.valid(),
    {
        self.range.is_valid()
    }

    pub fn add(&mut self, range: Range)
        ensures
            *final(self) == (Selection { range: old(self).range.add_spec(range), ..*old(self) }),
    {
        self.range.add(range);
    }

    pub fn reset(&mut self)
        ensures
            final(self).range == (Range { start: None, end: None }),
            final(self).char_width == old(self).char_width,
            final(self).char_height == old(self).char_height,
            final(self).start_animation_x is None,
            final(self).start_animation_y is None,
            final(self).end_animation_x is None,
            final(self).end_animation_y is None,
            final(self).wf(),
    {
        self.range.reset();
        self.start_animation_x = None;
        self.start_animation_y = None;
        self.end_animation_x = None;
        self.end_animation_y = None;
    }

    pub fn get_range(&self) -> (r: Range)
        ensures
            r == self.range,
    {
        self.range
    }

    pub fn get_lines_index(&self, lines: &[Line]) -> (r: Vec<(u32, u32)>)
        requires
            rows_fit(lines@),
        ensures
            r@ == self.range.lines_index_spec(doc_of(lines@)),
    {
        self.range.get_lines_index(lines)
    }

    /// The pixel position shown for the earlier end: the glide of the end that it is, or
    /// its exact position.
    pub fn computed_start(&self) -> (r: (i64, i64))
        requires
            self.range.valid(),
        ensures
            ({
                let p = self.range.real_start_spec();
                let from_start = p == self.range.start.unwrap();
                let ax = if from_start { self.start_animation_x } else { self.end_animation_x };
                let ay = if from_start { self.start_animation_y } else { self.end_animation_y };
                r == (shown(ax, p.x * self.char_width) as i64, shown(ay, p.y * self.char_height) as i64)
            }),
    {
        let p = self.start().unwrap();
        let from_start = p == self.range.start.unwrap();
        let ax = if from_start { self.start_animation_x } else { self.end_animation_x };
        let ay = if from_start { self.start_animation_y } else { self.end_animation_y };
        let x = match ax {
            Some(a) => a.value,
            None => cell_pixel(p.x, self.char_width),
        };
        let y = match ay {
            Some(a) => a.value,
            None => cell_pixel(p.y, self.char_height),
        };
        (x, y)
    }

    /// The pixel position shown for the later end: the glide of the end that it is, or its
    /// exact position.
    pub fn computed_end(&self) -> (r: (i64, i64))
        requires
            self.range.valid(),
        ensures
            ({
                let p = self.range.real_end_spec();
                let from_end = p == self.range.end.unwrap();
                let ax = if from_end { self.end_animation_x } else { self.start_animation_x };
                let ay = if from_end { self.end_animation_y } else { self.start_animation_y };
                r == (shown(ax, p.x * self.char_width) as i64, shown(ay, p.y * self.char_height) as i64)
            }),
    {
        let p = self.end().unwrap();
        let from_end = p == self.range.end.unwrap();
        let ax = if from_end { self.end_animation_x } else { self.start_animation_x };
        let ay = if from_end { self.end_animation_y } else { self.start_animation_y };
        let x = match ax {
            Some(a) => a.value,
            None => cell_pixel(p.x, self.char_width),
        };
        let y = match ay {
            Some(a) => a.value,
            None => cell_pixel(p.y, self.char_height),
        };
        (x, y)
    }
}

} // verus!
