use shadcn_ui::widgets::{
    compute_page_window, AlertVariant, HoverCardSide, PopoverAlign, PopoverSide, ScrollOrientation, Separator,
    SeparatorOrientation, SonnerPosition, SonnerVariant, TooltipSide,
};

#[test]
fn test_separator_defaults() {
    let sep = Separator::new();
    assert_eq!(sep.orientation, SeparatorOrientation::Horizontal);
}

#[test]
fn test_separator_vertical() {
    let sep = Separator::new().orientation(SeparatorOrientation::Vertical);
    assert_eq!(sep.orientation, SeparatorOrientation::Vertical);
}

#[test]
fn widget_option_defaults() {
    assert_eq!(AlertVariant::default(), AlertVariant::Default);
    assert_eq!(HoverCardSide::default(), HoverCardSide::Bottom);
    assert_eq!(PopoverSide::default(), PopoverSide::Bottom);
    assert_eq!(PopoverAlign::default(), PopoverAlign::Center);
    assert_eq!(ScrollOrientation::default(), ScrollOrientation::Vertical);
    assert_eq!(SonnerVariant::default(), SonnerVariant::Default);
    assert_eq!(SonnerPosition::default(), SonnerPosition::BottomRight);
    assert_eq!(TooltipSide::default(), TooltipSide::Top);
    assert_eq!(SeparatorOrientation::default(), SeparatorOrientation::Horizontal);
}

#[test]
fn test_pagination_page_window() {
    // Small total: show all pages
    assert_eq!(
        compute_page_window(1, 5),
        vec![Some(1), Some(2), Some(3), Some(4), Some(5)]
    );

    // Large total, current in middle: 1 ... 3 4 5 6 7 ... 20
    let window = compute_page_window(5, 20);
    assert_eq!(window[0], Some(1));
    assert_eq!(window[1], None); // ellipsis
    assert!(window.contains(&Some(5))); // current page included
    assert_eq!(*window.last().unwrap(), Some(20));

    // Large total, current near start: 1 2 3 4 5 ... 20
    let window = compute_page_window(2, 20);
    assert_eq!(window[0], Some(1));
    assert!(window.contains(&Some(2)));
    assert_eq!(*window.last().unwrap(), Some(20));

    // Large total, current near end: 1 ... 18 19 20
    let window = compute_page_window(19, 20);
    assert_eq!(window[0], Some(1));
    assert_eq!(*window.last().unwrap(), Some(20));
    assert!(window.contains(&Some(19)));
}

#[test]
fn page_window_exact_shapes() {
    assert_eq!(compute_page_window(1, 1), vec![Some(1)]);
    assert!(compute_page_window(1, 0).is_empty());
    assert_eq!(
        compute_page_window(5, 20),
        vec![Some(1), None, Some(3), Some(4), Some(5), Some(6), Some(7), None, Some(20)]
    );
    assert_eq!(
        compute_page_window(2, 20),
        vec![Some(1), Some(2), Some(3), Some(4), None, Some(20)]
    );
    assert_eq!(compute_page_window(19, 20), vec![Some(1), None, Some(17), Some(18), Some(19), Some(20)]);
    assert_eq!(compute_page_window(4, 8), vec![Some(1), Some(2), Some(3), Some(4), Some(5), Some(6), None, Some(8)]);
    assert_eq!(compute_page_window(100, 20), vec![Some(1), None, Some(20)]);
    assert_eq!(compute_page_window(7, 7).len(), 7);
}
