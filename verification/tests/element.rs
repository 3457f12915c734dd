use daw_core::Colour;
use daw_core::ComputedDimensions;
use daw_core::ComputedPosition;
use daw_core::Coordinate;
use daw_core::CreateElementRequest;
use daw_core::Dimensions;
use daw_core::ElementContent;
use daw_core::ElementCreationQueue;
use daw_core::Position;
use daw_core::Reactive;
use daw_core::ReactiveStore;
use daw_core::Size;
use daw_core::Style;
use daw_core::Ui;
use daw_core::c;

fn plain_content(x: i64, y: i64, w: i64, h: i64) -> ElementContent {
    ElementContent {
        position: Position { x: Coordinate::Fixed(x), y: Coordinate::Fixed(y) },
        dimensions: Dimensions { width: Size::Fixed(w), height: Size::Fixed(h) },
        style: Style::plain(),
        text_node: None,
    }
}

#[test]
fn creating_an_element_marks_its_dirty_flag() {
    let mut ui = Ui::new();
    let flag = ui.new_flag();
    assert!(!ui.flags[flag]);
    let _elem = ui.new_element(plain_content(0, 0, 10, 10), flag, 0, Vec::new());
    assert!(ui.flags[flag]);
}

#[test]
fn mutate_marks_the_flag_even_for_a_no_op() {
    let mut ui = Ui::new();
    let flag = ui.new_flag();
    let elem = ui.new_element(plain_content(0, 0, 10, 10), flag, 0, Vec::new());
    ui.flags[flag] = false;
    ui.mutate(elem, |content| content);
    assert!(ui.flags[flag]);
}

#[test]
fn mutate_applies_the_rewrite() {
    let mut ui = Ui::new();
    let flag = ui.new_flag();
    let elem = ui.new_element(plain_content(0, 0, 10, 10), flag, 0, Vec::new());
    ui.mutate(elem, |mut content| {
        content.style.visible = false;
        content
    });
    assert!(!ui.nodes[elem].content.style.visible);
}

#[test]
fn render_emits_quads_and_publishes_boxes() {
    let mut ui = Ui::new();
    let flag = ui.new_flag();
    let child = ui.new_element(plain_content(5, 5, 10, 10), flag, 0, Vec::new());
    let root = ui.new_element(plain_content(100, 200, 50, 40), flag, 1, vec![child]);
    let (cmds, boxes) = ui.render(
        root,
        ComputedPosition { x: 0, y: 0 },
        &ComputedDimensions { width: 800, height: 600 },
    );
    assert_eq!(cmds.len(), 2);
    assert_eq!(cmds[0].element, root);
    assert_eq!((cmds[0].x, cmds[0].y, cmds[0].width, cmds[0].height), (100, 200, 50, 40));
    assert_eq!(cmds[1].element, child);
    assert_eq!((cmds[1].x, cmds[1].y), (105, 205));
    ui.publish_boxes(&boxes);
    let bb = ui.nodes[root].bounding_box.unwrap();
    assert_eq!((bb.top_left.x, bb.top_left.y), (100, 200));
    assert_eq!((bb.bottom_right.x, bb.bottom_right.y), (150, 240));
    assert!(bb.contains(ComputedPosition { x: 120, y: 220 }));
    assert!(!bb.contains(ComputedPosition { x: 10, y: 10 }));
}

#[test]
fn invisible_subtrees_are_skipped() {
    let mut ui = Ui::new();
    let flag = ui.new_flag();
    let child = ui.new_element(plain_content(0, 0, 10, 10), flag, 0, Vec::new());
    let root = ui.new_element(plain_content(0, 0, 50, 40), flag, 1, vec![child]);
    ui.mutate(root, |mut content| {
        content.style.visible = false;
        content
    });
    let (cmds, boxes) = ui.render(
        root,
        ComputedPosition { x: 0, y: 0 },
        &ComputedDimensions { width: 800, height: 600 },
    );
    assert_eq!(cmds.len(), 0);
    assert_eq!(boxes.len(), 0);
}

#[test]
fn fractional_layout_scales_with_the_parent() {
    let mut ui = Ui::new();
    let flag = ui.new_flag();
    let content = ElementContent {
        position: Position {
            x: Coordinate::FractionOfParent(500),
            y: Coordinate::FractionOfParentWithOffset(250, 7),
        },
        dimensions: Dimensions {
            width: Size::FractionOfParent(1000),
            height: Size::Fixed(10),
        },
        style: Style::plain(),
        text_node: None,
    };
    let elem = ui.new_element(content, flag, 0, Vec::new());
    let (cmds, _) = ui.render(
        elem,
        ComputedPosition { x: 0, y: 0 },
        &ComputedDimensions { width: 800, height: 600 },
    );
    assert_eq!(cmds.len(), 1);
    assert_eq!((cmds[0].x, cmds[0].y, cmds[0].width), (400, 157, 800));
}

#[test]
fn bound_elements_are_marked_dirty_on_dispatch() {
    let mut ui = Ui::new();
    let mut store: ReactiveStore<i64> = ReactiveStore::new();
    let cell = Reactive::new(&mut store, 0);
    let flag = ui.new_flag();
    let elem = ui.new_element(plain_content(0, 0, 10, 10), flag, 0, Vec::new());
    let sub = ui.subscribe_mutation_to_reactive(elem, &mut store, &cell);
    ui.flags[flag] = false;
    cell.set(&mut store, 44);
    let deliveries = store.take_deliveries();
    assert_eq!(deliveries.len(), 1);
    let hit = ui.dispatch_delivery(deliveries[0].subscriber);
    assert_eq!(hit, vec![elem]);
    assert!(ui.flags[flag]);
    assert_eq!(deliveries[0].subscriber, sub);
}

#[test]
fn cleanup_returns_the_subtree_subscriptions_and_marks_it_dead() {
    let mut ui = Ui::new();
    let mut store: ReactiveStore<i64> = ReactiveStore::new();
    let cell = Reactive::new(&mut store, 0);
    let flag = ui.new_flag();
    let child = ui.new_element(plain_content(0, 0, 1, 1), flag, 0, Vec::new());
    let root = ui.new_element(plain_content(0, 0, 2, 2), flag, 1, vec![child]);
    let sub_child = ui.subscribe_mutation_to_reactive(child, &mut store, &cell);
    let sub_root = ui.subscribe_mutation_to_reactive(root, &mut store, &cell);
    let ids = ui.cleanup(root);
    assert_eq!(ids, vec![sub_root, sub_child]);
    assert!(!ui.nodes[root].alive);
    assert!(!ui.nodes[child].alive);
    for id in ids {
        cell.unsubscribe(&mut store, id);
    }
    cell.set(&mut store, 9);
    assert_eq!(store.take_deliveries().len(), 0);
}

#[test]
fn deferred_creation_attaches_under_the_parent() {
    let mut ui = Ui::new();
    let flag = ui.new_flag();
    let parent = ui.new_element(plain_content(0, 0, 10, 10), flag, 4, Vec::new());
    let mut queue = ElementCreationQueue::new();
    queue.queue_element(
        CreateElementRequest {
            parent,
            content: plain_content(1, 1, 2, 2),
            dirty_flag: flag,
            rank: 0,
            children: Vec::new(),
        },
    );
    ui.fulfil_queue(&mut queue);
    assert_eq!(queue.requests.len(), 0);
    assert_eq!(ui.nodes[parent].children.len(), 1);
    let attached = ui.nodes[parent].children[0];
    assert_eq!(ui.nodes[attached].content.position.x, Coordinate::Fixed(1));
}

#[test]
fn hex_colours_parse_exactly() {
    assert_eq!(c("1a1a1a"), Colour { r: 0x1a, g: 0x1a, b: 0x1a, a: 255 });
    assert_eq!(c("ff0000"), Colour { r: 255, g: 0, b: 0, a: 255 });
    assert_eq!(c("00FF7f"), Colour { r: 0, g: 255, b: 0x7f, a: 255 });
}

#[test]
fn binding_an_element_marks_it_dirty_for_the_first_evaluation() {
    // Binding runs the element's recomputation once against the cell's
    // current value: the dirty flag is set at bind time, before any
    // change arrives.
    let mut ui = Ui::new();
    let mut store: ReactiveStore<i64> = ReactiveStore::new();
    let cell = Reactive::new(&mut store, 3);
    let flag = ui.new_flag();
    let elem = ui.new_element(plain_content(0, 0, 10, 10), flag, 0, Vec::new());
    ui.flags[flag] = false;
    ui.subscribe_mutation_to_reactive(elem, &mut store, &cell);
    assert!(ui.flags[flag]);
}

#[test]
fn unfit_requests_are_dropped_and_later_fit_ones_still_run() {
    let mut ui = Ui::new();
    let flag = ui.new_flag();
    let parent = ui.new_element(plain_content(0, 0, 10, 10), flag, 4, Vec::new());
    let mut queue = ElementCreationQueue::new();
    // Rank too high for the parent: dropped.
    queue.queue_element(
        CreateElementRequest {
            parent,
            content: plain_content(9, 9, 9, 9),
            dirty_flag: flag,
            rank: 4,
            children: Vec::new(),
        },
    );
    // Fits: fulfilled.
    queue.queue_element(
        CreateElementRequest {
            parent,
            content: plain_content(1, 1, 2, 2),
            dirty_flag: flag,
            rank: 1,
            children: Vec::new(),
        },
    );
    ui.fulfil_queue(&mut queue);
    assert_eq!(queue.requests.len(), 0);
    assert_eq!(ui.nodes[parent].children.len(), 1);
    let attached = ui.nodes[parent].children[0];
    assert_eq!(ui.nodes[attached].content.position.x, Coordinate::Fixed(1));
    assert_eq!(ui.nodes[attached].rank, 1);
}
