//! Where content goes down the page, and when a new page starts.
//!
//! Positions are measured downward from the top of the page, in millipoints
//! (thousandths of a point): `y` is the distance from the top edge to the next
//! unused point. Every vertical measure of the layout (line boxes, margins,
//! paddings, the A4 page) is a whole number of millipoints, so the arithmetic
//! here is exact.
use vstd::prelude::*;

verus! {

/// A4 height, 841.89pt.
pub const PAGE_HEIGHT: u64 = 841_890;

/// The page padding on every side, 26pt.
pub const PAGE_PADDING: u64 = 26_000;

/// The lowest point content may reach on a page.
pub open spec fn page_bottom() -> int {
    PAGE_HEIGHT - PAGE_PADDING
}

/// A left rule beside an entry, open from `top` down to wherever it ends.
#[derive(Clone, Copy, PartialEq, Eq, Debug)]
pub struct RuleSpan {
    pub x: u64,
    pub top: u64,
}

/// A stretch of left rule to stroke on the current page, from `top` to
/// `bottom`.
#[derive(Clone, Copy, PartialEq, Eq, Debug)]
pub struct RuleSegment {
    pub x: u64,
    pub top: u64,
    pub bottom: u64,
}

/// The vertical state of the document being laid out.
#[derive(Clone, Copy, PartialEq, Eq, Debug)]
pub struct PageCursor {
    /// Index of the page being filled.
    pub page: usize,
    /// Distance from the top edge to the next unused point.
    pub y: u64,
    /// The left rule currently open, if any. Held open across page breaks so
    /// a split entry gets a rule segment on each page it touches.
    pub rule: Option<RuleSpan>,
}

/// The segment of `span` from its top down to `bottom`, unless that is empty.
pub open spec fn segment_to(span: RuleSpan, bottom: u64) -> Option<RuleSegment> {
    if bottom <= span.top {
        None
    } else {
        Some(RuleSegment { x: span.x, top: span.top, bottom })
    }
}

impl PageCursor {
    /// Space left above the bottom margin; negative once an oversized item has
    /// run past it.
    pub open spec fn remaining_spec(self) -> int {
        page_bottom() - self.y
    }

    /// The position is the top of the page's content area.
    pub open spec fn at_top(self) -> bool {
        self.y == PAGE_PADDING
    }

    /// Nothing lies above the position on this page.
    pub open spec fn nothing_above(self) -> bool {
        self.y <= PAGE_PADDING
    }

    /// The position after a page break: the top of the next page, with an
    /// open rule carried over to start at that top.
    pub open spec fn next_page(self) -> PageCursor {
        PageCursor {
            page: (self.page + 1) as usize,
            y: PAGE_PADDING,
            rule: match self.rule {
                Some(span) => Some(RuleSpan { x: span.x, top: PAGE_PADDING }),
                None => None,
            },
        }
    }

    /// The stretch of open rule a page break strokes on the finished page:
    /// down to the bottom margin.
    pub open spec fn break_segment(self) -> Option<RuleSegment> {
        match self.rule {
            Some(span) => segment_to(span, page_bottom() as u64),
            None => None,
        }
    }

    /// The position after making room for `needed`.
    pub open spec fn ensured(self, needed: u64) -> PageCursor {
        if self.must_break(needed) {
            self.next_page()
        } else {
            self
        }
    }

    /// The first page, with nothing on it.
    pub fn new() -> (c: PageCursor)
        ensures
            c.page == 0,
            c.at_top(),
            c.rule is None,
    {
        PageCursor { page: 0, y: PAGE_PADDING, rule: None }
    }

    /// Distance from the top edge to the next unused point.
    pub fn cursor(&self) -> (y: u64)
        ensures
            y == self.y,
    {
        self.y
    }

    /// The lowest point content may reach.
    pub fn page_bottom(&self) -> (b: u64)
        ensures
            b == page_bottom(),
    {
        PAGE_HEIGHT - PAGE_PADDING
    }

    /// Space left above the bottom margin.
    pub fn remaining(&self) -> (r: i128)
        ensures
            r == self.remaining_spec(),
    {
        (PAGE_HEIGHT - PAGE_PADDING) as i128 - self.y as i128
    }

    /// Move down by `height`.
    pub fn advance(&mut self, height: u64)
        requires
            old(self).y + height <= u64::MAX,
        ensures
            *final(self) == (PageCursor { y: (old(self).y + height) as u64, ..*old(self) }),
    {
        self.y = self.y + height;
    }

    /// Move to an absolute position, as multi-column rows do so that each
    /// column starts from the same top edge.
    pub fn set_cursor(&mut self, y: u64)
        ensures
            *final(self) == (PageCursor { y, ..*old(self) }),
    {
        self.y = y;
    }

    /// Start the next page. An open rule is closed at the foot of the finished
    /// page (a split entry's fragment fills the rest of the page) and reopened
    /// at the top of the new one; the segment to stroke on the finished page is
    /// returned.
    pub fn break_page(&mut self) -> (seg: Option<RuleSegment>)
        requires
            old(self).page < usize::MAX,
        ensures
            *final(self) == old(self).next_page(),
            seg == old(self).break_segment(),
    {
        let seg = match self.rule {
            Some(span) => {
                let bottom = PAGE_HEIGHT - PAGE_PADDING;
                self.rule = Some(RuleSpan { x: span.x, top: PAGE_PADDING });
                if bottom <= span.top {
                    None
                } else {
                    Some(RuleSegment { x: span.x, top: span.top, bottom })
                }
            },
            None => None,
        };
        self.page = self.page + 1;
        self.y = PAGE_PADDING;
        seg
    }

    /// Whether placing `needed` here must first start a new page: it does not
    /// fit, and something has already been placed on this page. An item taller
    /// than a whole page is placed on a fresh page rather than breaking forever.
    pub open spec fn must_break(self, needed: u64) -> bool {
        needed > self.remaining_spec() && self.y > PAGE_PADDING
    }

    /// Break to a new page unless `needed` fits, or unless nothing has been
    /// placed yet. Returns the page break's rule segment when it broke.
    pub fn ensure(&mut self, needed: u64) -> (r: (bool, Option<RuleSegment>))
        requires
            old(self).page < usize::MAX,
        ensures
            r.0 == old(self).must_break(needed),
            *final(self) == old(self).ensured(needed),
            r.1 == (if r.0 {
                old(self).break_segment()
            } else {
                None
            }),
    {
        if (needed as i128) > self.remaining() && self.y > PAGE_PADDING {
            let seg = self.break_page();
            (true, seg)
        } else {
            (false, None)
        }
    }

    /// Begin a left rule at the current position.
    pub fn begin_rule(&mut self, x: u64)
        ensures
            *final(self) == (PageCursor { rule: Some(RuleSpan { x, top: old(self).y }), ..*old(self) }),
    {
        self.rule = Some(RuleSpan { x, top: self.y });
    }

    /// Close the open left rule at the current position; returns the segment
    /// to stroke, if there is one.
    pub fn end_rule(&mut self) -> (seg: Option<RuleSegment>)
        ensures
            final(self).rule is None,
            final(self).page == old(self).page,
            final(self).y == old(self).y,
            seg == match old(self).rule {
                Some(span) => segment_to(span, old(self).y),
                None => None,
            },
    {
        match self.rule {
            Some(span) => {
                self.rule = None;
                if self.y <= span.top {
                    None
                } else {
                    Some(RuleSegment { x: span.x, top: span.top, bottom: self.y })
                }
            },
            None => None,
        }
    }
}

/// After making room for an item, the item fits above the bottom margin or
/// nothing lies above it on its page: content runs past the margin only when
/// it could not fit on any page. A page with nothing on it is never broken, so
/// an item taller than a page cannot break pages forever.
pub proof fn law_ensure_fits_or_starts_page(c: PageCursor, needed: u64)
    requires
        c.page < usize::MAX,
    ensures
        needed <= c.ensured(needed).remaining_spec() || c.ensured(needed).nothing_above(),
        c.nothing_above() ==> c.ensured(needed) == c,
{
}

/// Height a paragraph of `lines` lines occupies: its line boxes and its bottom
/// margin.
pub fn measure_lines(lines: u64, line_box: u64, margin_bottom: u64) -> (h: u64)
    requires
        lines * line_box + margin_bottom <= u64::MAX,
    ensures
        h == lines * line_box + margin_bottom,
{
    assert(lines * line_box <= u64::MAX) by (nonlinear_arith)
        requires
            lines * line_box + margin_bottom <= u64::MAX,
    ;
    lines * line_box + margin_bottom
}

} // verus!
