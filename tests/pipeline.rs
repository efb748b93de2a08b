use tile_browser::catalog::{first_image_url, load_page_data, worker_count, worker_thread_count, CatalogContainer};
use tile_browser::display::{App, RenderedImage};
use tile_browser::queue::{ImageLoadingBundle, WorkQueue};
use tile_browser::worker::{needs_refset, refset_data_key, refset_url, DImageLoaded, Worker, WorkerAction, WorkerEvent, WorkerPhase};

fn title(id: u32) -> RenderedImage {
    RenderedImage { texture_id: id, width: 10, height: 4 }
}

fn container(id: u32, refset_id: &str, urls: &[&str]) -> CatalogContainer {
    CatalogContainer {
        title: title(id),
        refset_id: refset_id.to_string(),
        refset_type: "CuratedSet".to_string(),
        image_urls: urls.iter().map(|u| u.to_string()).collect(),
    }
}

fn bundle(idx: usize, urls: &[&str]) -> ImageLoadingBundle {
    ImageLoadingBundle {
        refset_id: "null".to_string(),
        refset_type: String::new(),
        container_idx: idx,
        images_to_load: urls.iter().map(|u| u.to_string()).collect(),
    }
}

/// Runs one worker over `queue` until it exits. Reference sets resolve to
/// `refset` (or fail when it is `None`); an image loads unless its URL is in
/// `failing`; every published image is applied to `app`. Returns the number
/// of images published.
fn drive(
    app: &mut App,
    queue: &mut WorkQueue,
    refset: Option<Vec<&str>>,
    failing: &[&str],
    consumer_gone_after: Option<usize>,
) -> (Worker, usize) {
    let (mut worker, mut action) = Worker::new();
    let mut published = 0usize;
    let mut next_texture = 100u32;
    loop {
        let event = match action {
            WorkerAction::PopBundle => WorkerEvent::Popped(queue.pop_front()),
            WorkerAction::FetchRefset(_) => {
                WorkerEvent::RefsetResolved(refset.as_ref().map(|v| v.iter().map(|u| u.to_string()).collect()))
            }
            WorkerAction::FetchImage(url) => {
                if failing.contains(&url.as_str()) {
                    WorkerEvent::ImageLoaded(None)
                } else {
                    next_texture += 1;
                    WorkerEvent::ImageLoaded(Some(next_texture))
                }
            }
            WorkerAction::Publish(loaded) => {
                if consumer_gone_after == Some(published) {
                    WorkerEvent::Published(false)
                } else {
                    app.add_loaded_image(loaded);
                    published += 1;
                    WorkerEvent::Published(true)
                }
            }
            WorkerAction::Exit => break,
        };
        action = worker.step(event);
    }
    (worker, published)
}

#[test]
fn pop_front_on_empty_queue_is_none_every_time() {
    let mut q = WorkQueue::new();
    assert!(q.pop_front().is_none());
    assert!(q.pop_front().is_none());
    assert_eq!(q.len(), 0);
}

#[test]
fn queue_is_first_in_first_out() {
    let mut q = WorkQueue::new();
    q.push_back(bundle(0, &["a"]));
    q.push_back(bundle(1, &["b"]));
    assert_eq!(q.len(), 2);
    assert_eq!(q.pop_front().unwrap().container_idx, 0);
    assert_eq!(q.pop_front().unwrap().container_idx, 1);
    assert!(q.pop_front().is_none());
    assert!(q.pop_front().is_none());
}

#[test]
fn refset_address_is_templated() {
    assert_eq!(
        refset_url("abc-123"),
        "https://cd-static.bamgrid.com/dp-117731241344/sets/abc-123.json"
    );
}

#[test]
fn null_marker_means_no_refset() {
    assert!(!needs_refset(&"null".to_string()));
    assert!(needs_refset(&"abc".to_string()));
    assert!(needs_refset(&"".to_string()));
}

#[test]
fn refset_key_prefers_first_document_key() {
    assert_eq!(refset_data_key(Some("PersonalizedCuratedSet".to_string()), &"CuratedSet".to_string()), "PersonalizedCuratedSet");
    assert_eq!(refset_data_key(None, &"CuratedSet".to_string()), "CuratedSet");
}

#[test]
fn worker_count_leaves_one_core() {
    assert_eq!(worker_count(8), 7);
    assert_eq!(worker_count(2), 1);
    assert_eq!(worker_count(1), 1);
    assert_eq!(worker_count(0), 1);
    assert!(worker_thread_count() >= 1);
}

#[test]
fn image_url_follows_layout_priority() {
    assert_eq!(first_image_url(vec![None, Some("p".to_string()), Some("d".to_string())]), "p");
    assert_eq!(first_image_url(vec![Some("s".to_string()), Some("p".to_string()), None]), "s");
    assert_eq!(first_image_url(vec![None, None, None]), "");
}

#[test]
fn catalog_builds_rows_and_bundles_in_order() {
    let mut app = App::new(1);
    let mut queue = load_page_data(&mut app, vec![container(7, "null", &["a", "b"]), container(8, "set-1", &[])]);
    assert_eq!(app.containers.len(), 2);
    assert_eq!(app.containers[0].title.texture_id, 7);
    assert_eq!(app.containers[1].title.texture_id, 8);
    assert!(app.containers[1].images.is_empty());
    assert_eq!(queue.len(), 2);
    let first = queue.pop_front().unwrap();
    assert_eq!(first.container_idx, 0);
    assert_eq!(first.images_to_load, vec!["a".to_string(), "b".to_string()]);
    let second = queue.pop_front().unwrap();
    assert_eq!(second.container_idx, 1);
    assert_eq!(second.refset_id, "set-1");
}

#[test]
fn two_row_catalog_with_refset_and_one_failure() {
    let mut app = App::new(1);
    let mut queue = load_page_data(
        &mut app,
        vec![container(10, "null", &["a0", "a1", "a2"]), container(11, "set-1", &[])],
    );
    let (worker, published) = drive(
        &mut app,
        &mut queue,
        Some(vec!["r0", "r1", "r2", "r3", "r4"]),
        &["r2"],
        None,
    );
    assert_eq!(app.containers[0].images.len(), 3);
    assert_eq!(app.containers[1].images.len(), 4);
    assert_eq!(published, 7);
    assert_eq!(worker.phase, WorkerPhase::Stopped);
    assert!(worker.degraded_rows.is_empty());
}

#[test]
fn failed_refset_leaves_row_empty_and_degraded() {
    let mut app = App::new(1);
    let mut queue = load_page_data(&mut app, vec![container(10, "set-9", &[])]);
    let (worker, published) = drive(&mut app, &mut queue, None, &[], None);
    assert_eq!(app.containers[0].images.len(), 0);
    assert_eq!(published, 0);
    assert_eq!(worker.degraded_rows, vec![0]);
    assert_eq!(worker.phase, WorkerPhase::Stopped);
}

#[test]
fn failed_refset_keeps_direct_items() {
    let mut app = App::new(1);
    let mut queue = load_page_data(&mut app, vec![container(10, "set-9", &["a", "b"])]);
    let (worker, published) = drive(&mut app, &mut queue, None, &[], None);
    assert_eq!(app.containers[0].images.len(), 2);
    assert_eq!(published, 2);
    assert_eq!(worker.degraded_rows, vec![0]);
}

#[test]
fn events_never_exceed_urls() {
    let mut app = App::new(1);
    let mut queue = load_page_data(
        &mut app,
        vec![container(1, "null", &["a", "", "b", "c"]), container(2, "null", &["d"])],
    );
    let (_, published) = drive(&mut app, &mut queue, None, &["b", "d"], None);
    // five URLs listed, one empty and two failing: two images arrive
    assert_eq!(published, 2);
    assert_eq!(app.containers[0].images.len(), 2);
    assert_eq!(app.containers[1].images.len(), 0);
}

#[test]
fn worker_stops_when_consumer_is_gone() {
    let mut app = App::new(1);
    let mut queue = load_page_data(&mut app, vec![container(1, "null", &["a", "b", "c"])]);
    let (worker, published) = drive(&mut app, &mut queue, None, &[], Some(1));
    assert_eq!(published, 1);
    assert_eq!(worker.phase, WorkerPhase::Stopped);
}

#[test]
fn worker_asks_for_refset_then_images() {
    let (mut w, first) = Worker::new();
    assert!(matches!(first, WorkerAction::PopBundle));
    let mut b = bundle(3, &["x"]);
    b.refset_id = "abc".to_string();
    match w.step(WorkerEvent::Popped(Some(b))) {
        WorkerAction::FetchRefset(url) => {
            assert_eq!(url, "https://cd-static.bamgrid.com/dp-117731241344/sets/abc.json")
        }
        _ => panic!("expected a reference-set fetch"),
    }
    match w.step(WorkerEvent::RefsetResolved(Some(vec!["y".to_string()]))) {
        WorkerAction::FetchImage(url) => assert_eq!(url, "x"),
        _ => panic!("expected an image fetch"),
    }
    match w.step(WorkerEvent::ImageLoaded(Some(42))) {
        WorkerAction::Publish(loaded) => assert_eq!(loaded, DImageLoaded { texture_id: 42, container_idx: 3 }),
        _ => panic!("expected a publication"),
    }
    match w.step(WorkerEvent::Published(true)) {
        WorkerAction::FetchImage(url) => assert_eq!(url, "y"),
        _ => panic!("expected an image fetch"),
    }
    assert!(matches!(w.step(WorkerEvent::ImageLoaded(None)), WorkerAction::PopBundle));
    assert!(matches!(w.step(WorkerEvent::Popped(None)), WorkerAction::Exit));
    assert!(matches!(w.step(WorkerEvent::Popped(None)), WorkerAction::Exit));
}

#[test]
fn unexpected_event_stops_worker() {
    let (mut w, _) = Worker::new();
    assert!(matches!(w.step(WorkerEvent::ImageLoaded(Some(1))), WorkerAction::Exit));
    assert_eq!(w.phase, WorkerPhase::Stopped);
}
