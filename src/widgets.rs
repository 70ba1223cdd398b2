//! Plain option types of the widgets: orientations, sides, alignments and
//! variants, and the separator.
use vstd::prelude::*;

verus! {

/// Visual style of an alert.
#[derive(Debug, Default, Clone, Copy, PartialEq, Eq, Structural)]
pub enum AlertVariant {
    #[default]
    Default,
    Destructive,
}

/// Side of the trigger on which a hover card opens.
#[derive(Debug, Default, Clone, Copy, PartialEq, Eq, Structural)]
pub enum HoverCardSide {
    Top,
    Right,
    #[default]
    Bottom,
    Left,
}

/// Side of the trigger on which a popover opens.
#[derive(Debug, Default, Clone, Copy, PartialEq, Eq, Structural)]
pub enum PopoverSide {
    Top,
    Right,
    #[default]
    Bottom,
    Left,
}

/// Alignment of a popover along its side.
#[derive(Debug, Default, Clone, Copy, PartialEq, Eq, Structural)]
pub enum PopoverAlign {
    Start,
    #[default]
    Center,
    End,
}

/// Directions in which a scroll area scrolls.
#[derive(Debug, Default, Clone, Copy, PartialEq, Eq, Structural)]
pub enum ScrollOrientation {
    #[default]
    Vertical,
    Horizontal,
    Both,
}

/// Visual style of a stacked notification.
#[derive(Debug, Default, Clone, Copy, PartialEq, Eq, Structural)]
pub enum SonnerVariant {
    #[default]
    Default,
    Destructive,
}

/// Screen corner or edge where stacked notifications appear.
#[derive(Debug, Default, Clone, Copy, PartialEq, Eq, Structural)]
pub enum SonnerPosition {
    TopLeft,
    TopCenter,
    TopRight,
    BottomLeft,
    BottomCenter,
    #[default]
    BottomRight,
}

/// Side of the trigger on which a tooltip opens.
#[derive(Debug, Default, Clone, Copy, PartialEq, Eq, Structural)]
pub enum TooltipSide {
    #[default]
    Top,
    Right,
    Bottom,
    Left,
}

/// Separator orientation.
#[derive(Debug, Default, Clone, Copy, PartialEq, Eq, Structural)]
pub enum SeparatorOrientation {
    /// Horizontal line spanning full width.
    #[default]
    Horizontal,
    /// Vertical line spanning full height.
    Vertical,
}

/// A dividing line.
pub struct Separator {
    pub orientation: SeparatorOrientation,
}

impl Separator {
    /// A new horizontal separator.
    pub fn new() -> (r: Self)
        ensures
            r.orientation == SeparatorOrientation::Horizontal,
    {
        Separator { orientation: SeparatorOrientation::Horizontal }
    }

    /// The separator with its orientation set to `orientation`.
    pub fn orientation(self, orientation: SeparatorOrientation) -> (r: Self)
        ensures
            r.orientation == orientation,
    {
        Separator { orientation }
    }
}

/// The page buttons of a pagination bar, `None` standing for an ellipsis:
/// every page when there are at most seven; otherwise the first page, the
/// pages from two before to two after `current` (kept within the second and
/// the next-to-last page), the last page, and an ellipsis wherever pages are
/// skipped.
pub open spec fn page_window(current: usize, total: usize) -> Seq<Option<usize>> {
    if total == 0 {
        seq![]
    } else if total <= 7 {
        Seq::new(total as nat, |i: int| Some((i + 1) as usize))
    } else {
        let start: int = if current > 3 {
            current - 2
        } else {
            2
        };
        let end: int = if current + 2 < total {
            current + 2
        } else {
            total - 1
        };
        let middle = Seq::new(
            if end >= start {
                (end - start + 1) as nat
            } else {
                0
            },
            |i: int| Some((start + i) as usize),
        );
        seq![Some(1usize)] + (if start > 2 {
            seq![None]
        } else {
            seq![]
        }) + middle + (if end < total - 1 {
            seq![None]
        } else {
            seq![]
        }) + seq![Some(total)]
    }
}

/// The page buttons of a pagination bar on page `current` of `total`.
pub fn compute_page_window(current: usize, total: usize) -> (pages: Vec<Option<usize>>)
    ensures
        pages@ == page_window(current, total),
{
    let mut pages: Vec<Option<usize>> = Vec::new();
    if total == 0 {
        assert(pages@ =~= page_window(current, total));
        return pages;
    }
    if total <= 7 {
        let mut p: usize = 1;
        while p <= total
            invariant
                1 <= p <= total + 1,
                total <= 7,
                pages@ =~= Seq::new((p - 1) as nat, |i: int| Some((i + 1) as usize)),
            decreases total + 1 - p,
        {
            pages.push(Some(p));
            p = p + 1;
        }
        return pages;
    }
    pages.push(Some(1));
    let start: usize = if current > 3 {
        current - 2
    } else {
        2
    };
    let end: usize = if current < total - 2 {
        current + 2
    } else {
        total - 1
    };
    if start > 2 {
        pages.push(None);
    }
    let ghost head = pages@;
    let mut p: usize = start;
    while p <= end
        invariant
            start <= p,
            p <= end + 1 || p == start,
            end < total,
            pages@ =~= head + Seq::new((p - start) as nat, |i: int| Some((start + i) as usize)),
        decreases end + 1 - p,
    {
        pages.push(Some(p));
        p = p + 1;
    }
    assert(p - start == if end >= start {
        (end - start + 1) as int
    } else {
        0
    });
    if end < total - 1 {
        pages.push(None);
    }
    pages.push(Some(total));
    assert(pages@ =~= page_window(current, total));
    pages
}

} // verus!
