//! Grid layout: pure arithmetic from a pane count and a viewport rectangle
//! to the panes' sub-rectangles, by fixed templates: one pane fills the
//! viewport, two panes make equal columns, three panes make one full-width
//! row over two columns, four or more make a 2x2 grid. Which coins fill
//! the panes is the application state's scrolled window, which moves one
//! row at a time; the layout itself only places however many are visible.
//! A three-row strip at the bottom of the screen is always reserved for
//! the status line. Odd widths and heights give the leftover cell to the
//! right or bottom part.

use vstd::prelude::*;

verus! {

/// An on-screen rectangle in terminal cells.
#[derive(Clone, Copy, PartialEq, Eq, Structural, Debug)]
pub struct Rect {
    pub x: u16,
    pub y: u16,
    pub width: u16,
    pub height: u16,
}

impl Rect {
    /// The rectangle stays within the u16 coordinate space.
    pub open spec fn wf(self) -> bool {
        self.x + self.width <= u16::MAX && self.y + self.height <= u16::MAX
    }

    /// `self` lies inside `outer`.
    pub open spec fn within(self, outer: Rect) -> bool {
        &&& outer.x <= self.x
        &&& self.x + self.width <= outer.x + outer.width
        &&& outer.y <= self.y
        &&& self.y + self.height <= outer.y + outer.height
    }
}

pub open spec fn left_half(a: Rect) -> Rect {
    Rect { x: a.x, y: a.y, width: (a.width / 2) as u16, height: a.height }
}

pub open spec fn right_half(a: Rect) -> Rect {
    Rect {
        x: (a.x + a.width / 2) as u16,
        y: a.y,
        width: (a.width - a.width / 2) as u16,
        height: a.height,
    }
}

pub open spec fn top_half(a: Rect) -> Rect {
    Rect { x: a.x, y: a.y, width: a.width, height: (a.height / 2) as u16 }
}

pub open spec fn bottom_half(a: Rect) -> Rect {
    Rect {
        x: a.x,
        y: (a.y + a.height / 2) as u16,
        width: a.width,
        height: (a.height - a.height / 2) as u16,
    }
}

fn split_columns(a: Rect) -> (r: (Rect, Rect))
    requires
        a.wf(),
    ensures
        r.0 == left_half(a),
        r.1 == right_half(a),
        r.0.wf() && r.1.wf(),
        r.0.within(a) && r.1.within(a),
{
    let left = Rect { x: a.x, y: a.y, width: a.width / 2, height: a.height };
    let right = Rect {
        x: a.x + a.width / 2,
        y: a.y,
        width: a.width - a.width / 2,
        height: a.height,
    };
    (left, right)
}

fn split_rows(a: Rect) -> (r: (Rect, Rect))
    requires
        a.wf(),
    ensures
        r.0 == top_half(a),
        r.1 == bottom_half(a),
        r.0.wf() && r.1.wf(),
        r.0.within(a) && r.1.within(a),
{
    let top = Rect { x: a.x, y: a.y, width: a.width, height: a.height / 2 };
    let bottom = Rect {
        x: a.x,
        y: a.y + a.height / 2,
        width: a.width,
        height: a.height - a.height / 2,
    };
    (top, bottom)
}

/// Places `count` visible panes inside `area` by the fixed templates; at
/// most four panes fit on one page.
pub fn calculate_grid_layout(count: usize, area: Rect) -> (v: Vec<Rect>)
    requires
        area.wf(),
    ensures
        v@.len() == if count < 4 {
            count as int
        } else {
            4int
        },
        count == 0 ==> v@ == Seq::<Rect>::empty(),
        count == 1 ==> v@ == seq![area],
        count == 2 ==> v@ == seq![left_half(area), right_half(area)],
        count == 3 ==> v@ == seq![
            top_half(area),
            left_half(bottom_half(area)),
            right_half(bottom_half(area)),
        ],
        count >= 4 ==> v@ == seq![
            left_half(top_half(area)),
            right_half(top_half(area)),
            left_half(bottom_half(area)),
            right_half(bottom_half(area)),
        ],
        forall|i: int| 0 <= i < v@.len() ==> (#[trigger] v@[i]).wf() && v@[i].within(area),
{
    let mut v: Vec<Rect> = Vec::new();
    if count == 0 {
        proof {
            assert(v@ =~= Seq::<Rect>::empty());
        }
    } else if count == 1 {
        v.push(area);
        proof {
            assert(v@ =~= seq![area]);
        }
    } else if count == 2 {
        let (left, right) = split_columns(area);
        v.push(left);
        v.push(right);
        proof {
            assert(v@ =~= seq![left_half(area), right_half(area)]);
        }
    } else if count == 3 {
        let (top, bottom) = split_rows(area);
        let (bl, br) = split_columns(bottom);
        v.push(top);
        v.push(bl);
        v.push(br);
        proof {
            assert(v@ =~= seq![
                top_half(area),
                left_half(bottom_half(area)),
                right_half(bottom_half(area)),
            ]);
        }
    } else {
        let (top, bottom) = split_rows(area);
        let (tl, tr) = split_columns(top);
        let (bl, br) = split_columns(bottom);
        v.push(tl);
        v.push(tr);
        v.push(bl);
        v.push(br);
        proof {
            assert(v@ =~= seq![
                left_half(top_half(area)),
                right_half(top_half(area)),
                left_half(bottom_half(area)),
                right_half(bottom_half(area)),
            ]);
        }
    }
    v
}

/// The chart region of the screen: everything above the status strip.
pub open spec fn spec_main_area(screen: Rect) -> Rect {
    Rect {
        x: screen.x,
        y: screen.y,
        width: screen.width,
        height: (screen.height - status_height_of(screen)) as u16,
    }
}

/// The reserved status strip: the bottom three rows, or the whole screen
/// when it is shorter than that.
pub open spec fn spec_status_area(screen: Rect) -> Rect {
    Rect {
        x: screen.x,
        y: (screen.y + screen.height - status_height_of(screen)) as u16,
        width: screen.width,
        height: status_height_of(screen),
    }
}

pub open spec fn status_height_of(screen: Rect) -> u16 {
    if screen.height < 3 {
        screen.height
    } else {
        3u16
    }
}

/// Carves the fixed-height status strip off the bottom of the screen.
pub fn split_status_area(screen: Rect) -> (r: (Rect, Rect))
    requires
        screen.wf(),
    ensures
        r.0 == spec_main_area(screen),
        r.1 == spec_status_area(screen),
        r.0.wf() && r.1.wf(),
        r.0.within(screen) && r.1.within(screen),
        r.0.height + r.1.height == screen.height,
{
    let status_h = if screen.height < 3 {
        screen.height
    } else {
        3
    };
    let main = Rect { x: screen.x, y: screen.y, width: screen.width, height: screen.height - status_h };
    let status = Rect {
        x: screen.x,
        y: screen.y + screen.height - status_h,
        width: screen.width,
        height: status_h,
    };
    (main, status)
}

} // verus!
