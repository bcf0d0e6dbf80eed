use modal_editor::client::{
    Constraint, Container, ContainerAutoFlow, ContainerLayout, Fixture, LayoutError, LayoutNode,
};

fn rect(left: u32, top: u32, right: u32, bottom: u32) -> Container {
    Container { top, right, bottom, left }
}

fn layout(expoent: u16, w: u32, h: u32) -> ContainerLayout {
    let mut l = ContainerLayout::new();
    l.setup_bsp(expoent, w, h);
    l
}

fn is_leaf(n: &LayoutNode) -> bool {
    n.left.is_none() && n.right.is_none()
}

fn leaf_rects(l: &ContainerLayout) -> Vec<Container> {
    l.layout_tree.iter().filter(|n| is_leaf(n)).map(|n| n.container).collect()
}

fn covers(c: &Container, x: u32, y: u32) -> bool {
    c.left <= x && x < c.right && c.top <= y && y < c.bottom
}

fn occupancy_is_consistent(l: &ContainerLayout) -> bool {
    l.layout_tree.iter().all(|n| {
        let below = match (n.left, n.right) {
            (Some(a), Some(b)) => l.layout_tree[a].has_child || l.layout_tree[b].has_child,
            _ => false,
        };
        n.has_child == (n.module_id.is_some() || below) && !(n.module_id.is_some() && below)
    })
}

#[test]
fn a_new_layout_has_no_nodes_and_no_room() {
    let mut l = ContainerLayout::new();
    assert_eq!(l.layout_tree.len(), 0);
    assert_eq!(l.push_module(0, vec![]), Err(LayoutError::Full));
    assert_eq!(l.get_module(0), Err(LayoutError::Missing));
    assert_eq!(l.remove_module(0), Err(LayoutError::Missing));
}

#[test]
fn setup_with_depth_two_yields_four_leaves() {
    let l = layout(2, 80, 24);
    assert_eq!(l.layout_tree.len(), 7);
    assert_eq!(
        leaf_rects(&l),
        vec![rect(0, 0, 40, 12), rect(40, 0, 80, 12), rect(0, 12, 40, 24), rect(40, 12, 80, 24)]
    );
    assert_eq!(l.layout_tree[0].container, rect(0, 0, 80, 24));
    assert_eq!(l.layout_tree[1].container, rect(0, 0, 80, 12));
    assert_eq!(l.layout_tree[2].container, rect(0, 12, 80, 24));
    assert!(l.layout_tree.iter().all(|n| n.module_id.is_none() && !n.has_child));
}

#[test]
fn setup_links_each_node_to_its_halves() {
    let l = layout(3, 80, 24);
    assert_eq!(l.layout_tree.len(), 15);
    for k in 0..7 {
        assert_eq!(l.layout_tree[k].left, Some(2 * k + 1));
        assert_eq!(l.layout_tree[k].right, Some(2 * k + 2));
    }
    for k in 7..15 {
        assert!(is_leaf(&l.layout_tree[k]));
    }
}

#[test]
fn setup_with_depth_zero_or_one_cuts_the_root_once() {
    for e in [0u16, 1] {
        let l = layout(e, 10, 4);
        assert_eq!(l.layout_tree.len(), 3);
        assert_eq!(leaf_rects(&l), vec![rect(0, 0, 10, 2), rect(0, 2, 10, 4)]);
    }
}

#[test]
fn setup_starts_over() {
    let mut l = layout(2, 80, 24);
    l.push_module(0, vec![]).unwrap();
    l.setup_bsp(1, 10, 4);
    assert_eq!(l.layout_tree.len(), 3);
    assert_eq!(l.get_module(0), Err(LayoutError::Missing));
}

#[test]
fn the_second_half_takes_the_remainder() {
    let l = layout(2, 5, 3);
    assert_eq!(
        leaf_rects(&l),
        vec![rect(0, 0, 2, 1), rect(2, 0, 5, 1), rect(0, 1, 2, 3), rect(2, 1, 5, 3)]
    );
}

#[test]
fn leaves_tile_the_screen() {
    for (e, w, h) in [(0u16, 3u32, 3u32), (2, 7, 5), (3, 9, 4), (4, 16, 16), (3, 1, 1), (2, 0, 5)] {
        let l = layout(e, w, h);
        let leaves = leaf_rects(&l);
        for c in &leaves {
            assert!(c.left <= c.right && c.right <= w && c.top <= c.bottom && c.bottom <= h);
        }
        for x in 0..w {
            for y in 0..h {
                assert_eq!(leaves.iter().filter(|c| covers(c, x, y)).count(), 1);
            }
        }
    }
}

#[test]
fn the_first_module_gets_the_whole_screen() {
    let mut l = layout(3, 80, 24);
    assert_eq!(l.push_module(7, vec![Constraint::FixOn(Fixture::Top)]), Ok(rect(0, 0, 80, 24)));
    assert_eq!(l.get_module(7), Ok(rect(0, 0, 80, 24)));
    assert!(occupancy_is_consistent(&l));
}

#[test]
fn the_second_module_halves_the_place_of_the_first() {
    let mut l = layout(3, 80, 24);
    l.push_module(0, vec![]).unwrap();
    assert_eq!(l.push_module(1, vec![]), Ok(rect(0, 12, 80, 24)));
    assert_eq!(l.get_module(0), Ok(rect(0, 0, 80, 12)));
    assert_eq!(l.get_module(1), Ok(rect(0, 12, 80, 24)));
    assert_eq!(l.layout_tree[0].module_id, None);
    assert!(l.layout_tree[0].has_child);
    assert!(occupancy_is_consistent(&l));
}

#[test]
fn insert_returns_the_place_that_get_reports() {
    let mut l = layout(3, 80, 24);
    for id in 0..8 {
        let place = l.push_module(id, vec![]).unwrap();
        assert_eq!(l.get_module(id), Ok(place));
        assert!(place.left <= place.right && place.right <= 80);
        assert!(place.top <= place.bottom && place.bottom <= 24);
        assert!(occupancy_is_consistent(&l));
    }
}

#[test]
fn eight_modules_fill_a_layout_of_depth_three() {
    let mut l = layout(3, 80, 24);
    for id in 0..8 {
        assert!(l.push_module(id, vec![]).is_ok());
    }
    let before: Vec<LayoutNode> = l.layout_tree.clone();
    assert_eq!(l.push_module(8, vec![]), Err(LayoutError::Full));
    assert_eq!(l.layout_tree, before);
    let mut places: Vec<Container> = (0..8).map(|id| l.get_module(id).unwrap()).collect();
    places.sort_by_key(|c| (c.top, c.left));
    let mut leaves = leaf_rects(&l);
    leaves.sort_by_key(|c| (c.top, c.left));
    assert_eq!(places, leaves);
}

#[test]
fn removing_the_second_of_four_modules() {
    let mut l = layout(3, 80, 24);
    for id in 0..4 {
        l.push_module(id, vec![]).unwrap();
    }
    let a = l.get_module(0).unwrap();
    assert_eq!(a, rect(0, 0, 40, 12));
    assert_eq!(l.get_module(1), Ok(rect(0, 12, 40, 24)));
    assert_eq!(l.get_module(2), Ok(rect(40, 0, 80, 12)));
    assert_eq!(l.get_module(3), Ok(rect(40, 12, 80, 24)));
    assert_eq!(l.remove_module(1), Ok(()));
    assert_eq!(l.get_module(1), Err(LayoutError::Missing));
    assert_eq!(l.get_module(0), Ok(a));
    for leaf in [5usize, 6] {
        assert_eq!(l.layout_tree[leaf].module_id, None);
        assert!(!l.layout_tree[leaf].has_child);
    }
    assert_eq!(l.layout_tree[2].module_id, Some(3));
    assert_eq!(l.get_module(3), Ok(rect(0, 12, 80, 24)));
    assert!(occupancy_is_consistent(&l));
}

#[test]
fn removing_keeps_a_node_that_only_passes_through() {
    let mut l = layout(3, 80, 24);
    for id in 0..3 {
        l.push_module(id, vec![]).unwrap();
    }
    assert_eq!(l.remove_module(1), Ok(()));
    assert_eq!(l.get_module(0), Ok(rect(0, 0, 40, 12)));
    assert_eq!(l.get_module(2), Ok(rect(40, 0, 80, 12)));
    assert!(l.layout_tree[0].has_child);
    assert!(l.layout_tree[1].has_child);
    assert!(!l.layout_tree[2].has_child);
    assert!(occupancy_is_consistent(&l));
    assert_eq!(l.push_module(9, vec![]), Ok(rect(0, 12, 80, 24)));
    assert!(occupancy_is_consistent(&l));
}

#[test]
fn removing_the_last_module_frees_the_tree() {
    let mut l = layout(3, 80, 24);
    l.push_module(0, vec![]).unwrap();
    l.push_module(1, vec![]).unwrap();
    assert_eq!(l.remove_module(0), Ok(()));
    assert_eq!(l.get_module(1), Ok(rect(0, 0, 80, 24)));
    assert_eq!(l.remove_module(1), Ok(()));
    assert!(l.layout_tree.iter().all(|n| n.module_id.is_none() && !n.has_child));
    assert_eq!(l.remove_module(1), Err(LayoutError::Missing));
}

#[test]
fn removing_an_unknown_module_changes_nothing() {
    let mut l = layout(2, 80, 24);
    l.push_module(0, vec![]).unwrap();
    let before = l.layout_tree.clone();
    assert_eq!(l.remove_module(5), Err(LayoutError::Missing));
    assert_eq!(l.layout_tree, before);
}

#[test]
fn width_and_height_of_a_rectangle() {
    let c = rect(3, 4, 10, 6);
    assert_eq!(c.get_width(), 7);
    assert_eq!(c.get_height(), 2);
    assert_eq!(rect(5, 5, 2, 1).get_width(), 0);
    assert_eq!(rect(5, 5, 2, 1).get_height(), 0);
    assert_eq!(Container::default(), rect(0, 0, 0, 0));
}

fn apart(a: &Container, b: &Container) -> bool {
    a.right <= b.left || b.right <= a.left || a.bottom <= b.top || b.bottom <= a.top
}

#[test]
fn leaves_lie_apart() {
    for (e, w, h) in [(0u16, 3u32, 3u32), (2, 7, 5), (3, 9, 4), (4, 16, 16), (3, 1, 1), (4, 3, 2), (2, 0, 5)] {
        let l = layout(e, w, h);
        let leaves = leaf_rects(&l);
        for (i, a) in leaves.iter().enumerate() {
            for (j, b) in leaves.iter().enumerate() {
                if i != j {
                    assert!(apart(a, b));
                }
            }
        }
    }
}

#[test]
fn modules_sit_in_one_node_each_and_their_places_lie_apart() {
    let mut l = layout(3, 80, 24);
    let steps: [(bool, usize); 12] = [
        (true, 0),
        (true, 1),
        (true, 2),
        (false, 1),
        (true, 3),
        (true, 4),
        (false, 0),
        (true, 5),
        (true, 6),
        (false, 4),
        (true, 7),
        (true, 8),
    ];
    for (insert, id) in steps {
        if insert {
            l.push_module(id, vec![]).unwrap();
        } else {
            l.remove_module(id).unwrap();
        }
        let holders: Vec<&LayoutNode> =
            l.layout_tree.iter().filter(|n| n.module_id.is_some()).collect();
        for (i, a) in holders.iter().enumerate() {
            for (j, b) in holders.iter().enumerate() {
                if i != j {
                    assert_ne!(a.module_id, b.module_id);
                    assert!(apart(&a.container, &b.container));
                }
            }
        }
        assert!(occupancy_is_consistent(&l));
    }
}
