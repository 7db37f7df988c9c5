use wpp::ast::{Expr, Node};
use wpp::layout::{measure, place, Anchor, LayoutError};

#[test]
fn justify_start_places_first_child_at_padding() {
    let dims = vec![(10i128, 20i128), (30, 40)];
    let ps = place(&dims, true, 5, 7, Anchor::Start, Anchor::Start).unwrap();
    assert_eq!(ps[0].0, 7);
    assert_eq!(ps[1].0, 7 + 10 + 5);
    assert_eq!(ps[0].1, 7);
}

#[test]
fn space_between_offsets_increase() {
    let dims = vec![(10i128, 10i128), (20, 10), (30, 10)];
    let ps = place(&dims, false, 4, 0, Anchor::Start, Anchor::SpaceBetween).unwrap();
    // total = 60 + 8 = 68; spacing = (300 - 68 + 8) / 2 = 120
    assert_eq!(ps.iter().map(|p| p.1).collect::<Vec<_>>(), vec![0, 130, 270]);
    assert!(ps[0].1 < ps[1].1 && ps[1].1 < ps[2].1);
}

#[test]
fn center_and_end_anchors() {
    let dims = vec![(100i128, 50i128)];
    let ps = place(&dims, true, 0, 10, Anchor::Center, Anchor::Center).unwrap();
    assert_eq!(ps[0], (100, 125));
    let ps = place(&dims, true, 0, 10, Anchor::End, Anchor::End).unwrap();
    assert_eq!(ps[0], (190, 240));
}

#[test]
fn center_rounds_toward_zero() {
    let dims = vec![(301i128, 0i128)];
    let ps = place(&dims, true, 0, 0, Anchor::Start, Anchor::Center).unwrap();
    assert_eq!(ps[0].0, 0);
    let dims = vec![(303i128, 0i128)];
    let ps = place(&dims, true, 0, 0, Anchor::Start, Anchor::Center).unwrap();
    assert_eq!(ps[0].0, -1);
}

#[test]
fn empty_group_and_overflow() {
    assert_eq!(place(&vec![], true, 3, 3, Anchor::Start, Anchor::Start).unwrap(), vec![]);
    let dims = vec![(2147483647i128, 1i128), (1, 1)];
    assert_eq!(place(&dims, true, 10, 0, Anchor::Start, Anchor::Start), Err(LayoutError::Overflow));
}

#[test]
fn measures_children() {
    let b = Node::Box { x: 0, y: 0, width: 3, height: 4 };
    assert_eq!(measure(&b, true), (3, 4));
    assert_eq!(measure(&b, false), (4, 3));
    let t = Node::Text { x: 0, y: 0, value: Expr::StringLiteral("héllo".to_string()) };
    assert_eq!(measure(&t, true), (48, 16));
    let v = Node::Text { x: 0, y: 0, value: Expr::Identifier("name".to_string()) };
    assert_eq!(measure(&v, true), (999, 16));
    let g = Node::Item { value: "x".to_string() };
    assert_eq!(measure(&g, false), (50, 50));
}
