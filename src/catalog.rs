use vstd::prelude::*;
use crate::display::{App, DImageRow, RenderedImage};
use crate::queue::{ImageLoadingBundle, WorkQueue};

verus! {

/// One container of the catalog, as the catalog parser yields it: the
/// uploaded title, the reference set that may add items (the id is "null"
/// where there is none), and the image URLs of the items it lists itself.
pub struct CatalogContainer {
    pub title: RenderedImage,
    pub refset_id: String,
    pub refset_type: String,
    pub image_urls: Vec<String>,
}

/// `row` is the fresh row of container `c`: its title, no tiles, first tile selected.
pub open spec fn new_row(row: DImageRow, c: CatalogContainer) -> bool {
    &&& row.title == c.title
    &&& row.images@.len() == 0
    &&& row.selected_tile_idx == 0
    &&& row.desired_selected_tile_idx == 0
}

/// `b` is the bundle of container `c`, to fill row `index`.
pub open spec fn queued(b: ImageLoadingBundle, c: CatalogContainer, index: int) -> bool {
    &&& b.container_idx == index
    &&& b.refset_id == c.refset_id
    &&& b.refset_type == c.refset_type
    &&& b.images_to_load == c.image_urls
}

/// Rows and work for a freshly parsed catalog. For each container, in order,
/// a row with its title and no tiles is appended to `app`, and a bundle for
/// that row, holding the container's reference set and URLs, is queued. The
/// returned queue holds the bundles in the same order.
pub fn load_page_data(app: &mut App, containers: Vec<CatalogContainer>) -> (r: WorkQueue)
    requires
        old(app).wf(),
    ensures
        final(app).wf(),
        final(app).selected_container_idx == old(app).selected_container_idx,
        final(app).viewport == old(app).viewport,
        final(app).has_tiles_loaded == old(app).has_tiles_loaded,
        final(app).background_image_texture_id == old(app).background_image_texture_id,
        final(app).containers@.len() == old(app).containers@.len() + containers@.len(),
        forall|i: int| 0 <= i < old(app).containers@.len() ==> #[trigger] final(app).containers@[i] == old(app).containers@[i],
        r@.len() == containers@.len(),
        forall|i: int|
            0 <= i < containers@.len() ==> new_row(
                final(app).containers@[old(app).containers@.len() + i],
                #[trigger] containers@[i],
            ),
        forall|i: int|
            0 <= i < containers@.len() ==> queued(#[trigger] r@[i], containers@[i], old(app).containers@.len() + i),
{
    let ghost orig = containers@;
    let ghost base = old(app).containers@.len();
    let mut rest = containers;
    let mut queue = WorkQueue::new();
    let n = rest.len();
    let mut i: usize = 0;
    while i < n
        invariant
            app.wf(),
            i <= n,
            n == orig.len(),
            rest@ == orig.subrange(i as int, n as int),
            orig == containers@,
            app.containers@.len() == base + i,
            queue@.len() == i,
            app.selected_container_idx == old(app).selected_container_idx,
            app.viewport == old(app).viewport,
            app.has_tiles_loaded == old(app).has_tiles_loaded,
            app.background_image_texture_id == old(app).background_image_texture_id,
            base == old(app).containers@.len(),
            forall|q: int| 0 <= q < base ==> #[trigger] app.containers@[q] == old(app).containers@[q],
            forall|q: int|
                0 <= q < i ==> new_row(app.containers@[base + q], #[trigger] orig[q]),
            forall|q: int| 0 <= q < i ==> queued(#[trigger] queue@[q], orig[q], base + q),
        decreases n - i,
    {
        let container = rest.remove(0);
        assert(container == orig[i as int]);
        let row_index = app.containers.len();
        let ghost prev_rows = app.containers@;
        let ghost prev_queue = queue@;
        app.push_row(container.title);
        queue.push_back(
            ImageLoadingBundle {
                refset_id: container.refset_id,
                refset_type: container.refset_type,
                container_idx: row_index,
                images_to_load: container.image_urls,
            },
        );
        proof {
            assert(rest@ =~= orig.subrange(i + 1, n as int));
            assert forall|q: int| 0 <= q < base implies #[trigger] app.containers@[q] == old(app).containers@[q] by {
                assert(app.containers@[q] == prev_rows[q]);
            }
            assert forall|q: int|
                0 <= q < i + 1 implies new_row(app.containers@[base + q], #[trigger] orig[q]) && queued(queue@[q], orig[q], base + q) by {
                if q < i {
                    assert(app.containers@[base + q] == prev_rows[base + q]);
                    assert(queue@[q] == prev_queue[q]);
                } else {
                    assert(app.containers@.last() == app.containers@[base + q]);
                    assert(queue@[q] == queue@.last());
                }
            }
        }
        i = i + 1;
    }
    queue
}

/// Relies on num_cpus::get: the number of logical cores this process may
/// use, which its documentation promises is at least one.
#[verifier::external_body]
fn available_cores() -> (r: usize)
    ensures
        r >= 1,
{
    num_cpus::get()
}

/// Number of loading workers for `cores` logical cores: one core is left to
/// the consumer, but there is always at least one worker.
pub fn worker_count(cores: usize) -> (r: usize)
    ensures
        r == if cores > 1 { cores - 1 } else { 1 },
{
    if cores > 1 {
        cores - 1
    } else {
        1
    }
}

/// Number of loading workers for this machine.
pub fn worker_thread_count() -> (r: usize)
    ensures
        r >= 1,
{
    worker_count(available_cores())
}

/// Index of the first candidate at or after `i` that holds a URL, or the
/// length when none does.
pub open spec fn first_some_from(candidates: Seq<Option<String>>, i: int) -> int
    decreases candidates.len() - i,
{
    if i >= candidates.len() {
        candidates.len() as int
    } else if candidates[i] is Some {
        i
    } else {
        first_some_from(candidates, i + 1)
    }
}

/// The first URL among the candidates, which are the item's known image
/// layouts in priority order; empty when none of them has one.
pub fn first_image_url(candidates: Vec<Option<String>>) -> (r: String)
    ensures
        ({
            let k = first_some_from(candidates@, 0);
            if k < candidates@.len() {
                r == candidates@[k]->0
            } else {
                r@.len() == 0
            }
        }),
{
    let ghost orig = candidates@;
    let mut rest = candidates;
    let n = rest.len();
    let mut i: usize = 0;
    while i < n
        invariant
            i <= n,
            n == orig.len(),
            rest@ == orig.subrange(i as int, n as int),
            orig == candidates@,
            first_some_from(orig, 0) == first_some_from(orig, i as int),
        decreases n - i,
    {
        let c = rest.remove(0);
        assert(c == orig[i as int]);
        match c {
            Some(url) => {
                return url;
            },
            None => {},
        }
        proof {
            assert(rest@ =~= orig.subrange(i + 1, n as int));
        }
        i = i + 1;
    }
    String::new()
}

} // verus!
