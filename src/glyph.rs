use vstd::prelude::*;
use crate::util::{clamp, clamp_spec};
use itertools::Itertools;
use vstd::string::StrSliceExecFns;
use vstd::seq_lib::group_to_multiset_ensures;

verus! {

/// A glyph as the font shaper hands it over: a `width` x `rows` coverage
/// bitmap stored row by row, its top bearing (rows above the baseline) and
/// its horizontal advance in 1/64 pixel.
pub struct ShapedGlyph {
    pub buffer: Vec<u8>,
    pub width: i32,
    pub rows: i32,
    pub top: i32,
    pub advance_x: i64,
}

/// Working buffer of the text rasterizer: a sparse set of pixel rows keyed by
/// their offset from the baseline (`row_keys[i]` owns `row_pixels[i]`), and
/// the flattened single-channel bitmap once all glyphs are placed.
pub struct TextTextureData {
    pub row_keys: Vec<i64>,
    pub row_pixels: Vec<Vec<u8>>,
    pub width: usize,
    pub height: usize,
    pub data: Vec<u8>,
}

/// The sparse rows as a map from row offset to the row's pixels.
pub open spec fn canvas_of(keys: Seq<i64>, pixels: Seq<Vec<u8>>) -> Map<int, Seq<u8>> {
    Map::new(
        |k: int| exists|i: int| 0 <= i < keys.len() && keys[i] == k,
        |k: int| pixels[choose|i: int| 0 <= i < keys.len() && keys[i] == k]@,
    )
}

/// Saturating sum of two coverage values.
pub open spec fn blend(a: u8, b: u8) -> u8 {
    clamp_spec(a + b, 0, 255) as u8
}

/// `row` zero-padded on the right to at least `len` pixels.
pub open spec fn grown(row: Seq<u8>, len: int) -> Seq<u8> {
    if row.len() >= len {
        row
    } else {
        row + Seq::new((len - row.len()) as nat, |i: int| 0u8)
    }
}

/// `line` added onto `row` from column `ox` on, the row growing as needed.
pub open spec fn blit_line(row: Seq<u8>, ox: int, line: Seq<u8>) -> Seq<u8> {
    let g = grown(row, ox + line.len());
    Seq::new(
        g.len(),
        |c: int|
            if ox <= c < ox + line.len() {
                blend(g[c], line[c - ox])
            } else {
                g[c]
            },
    )
}

/// The pixels of row `y` of a bitmap `w` pixels wide.
pub open spec fn bitmap_line(src: Seq<u8>, w: int, y: int) -> Seq<u8> {
    src.subrange(y * w, y * w + w)
}

/// The row at offset `k`, empty where there is none yet.
pub open spec fn existing_row(m: Map<int, Seq<u8>>, k: int) -> Seq<u8> {
    if m.contains_key(k) {
        m[k]
    } else {
        Seq::empty()
    }
}

/// Canvas `m` after adding the first `h` rows of a `w`-pixel-wide bitmap whose
/// top row lands on offset `first` and whose left column lands on `ox`.
/// A bitmap without columns touches no row.
pub open spec fn blit_canvas(
    m: Map<int, Seq<u8>>,
    ox: int,
    first: int,
    w: int,
    h: int,
    src: Seq<u8>,
) -> Map<int, Seq<u8>> {
    if w <= 0 {
        m
    } else {
        Map::new(
            |k: int| m.contains_key(k) || (first <= k < first + h),
            |k: int|
                if first <= k < first + h {
                    blit_line(existing_row(m, k), ox, bitmap_line(src, w, k - first))
                } else {
                    m[k]
                },
        )
    }
}

impl TextTextureData {
    /// Row keys are unique and each has its pixels.
    pub open spec fn wf(&self) -> bool {
        &&& self.row_keys.len() == self.row_pixels.len()
        &&& self.row_keys@.no_duplicates()
    }

    pub open spec fn canvas(&self) -> Map<int, Seq<u8>> {
        canvas_of(self.row_keys@, self.row_pixels@)
    }
}

impl Default for TextTextureData {
    fn default() -> (r: Self)
        ensures
            r.wf(),
            r.canvas() == Map::<int, Seq<u8>>::empty(),
            r.width == 0,
            r.height == 0,
            r.data@.len() == 0,
    {
        let r = TextTextureData {
            row_keys: Vec::new(),
            row_pixels: Vec::new(),
            width: 0,
            height: 0,
            data: Vec::new(),
        };
        assert(r.canvas() =~= Map::<int, Seq<u8>>::empty());
        r
    }
}

proof fn lemma_canvas_at(keys: Seq<i64>, pixels: Seq<Vec<u8>>, i: int)
    requires
        keys.len() == pixels.len(),
        keys.no_duplicates(),
        0 <= i < keys.len(),
    ensures
        canvas_of(keys, pixels).contains_key(keys[i] as int),
        canvas_of(keys, pixels)[keys[i] as int] == pixels[i]@,
{
    let k = keys[i] as int;
    assert(exists|j: int| 0 <= j < keys.len() && keys[j] == k);
    let j = choose|j: int| 0 <= j < keys.len() && keys[j] == k;
    assert(j == i);
}

proof fn lemma_canvas_update(keys: Seq<i64>, pixels: Seq<Vec<u8>>, i: int, v: Vec<u8>)
    requires
        keys.len() == pixels.len(),
        keys.no_duplicates(),
        0 <= i < keys.len(),
    ensures
        canvas_of(keys, pixels.update(i, v)) == canvas_of(keys, pixels).insert(keys[i] as int, v@),
{
    let a = canvas_of(keys, pixels.update(i, v));
    let b = canvas_of(keys, pixels).insert(keys[i] as int, v@);
    assert forall|k: int| #[trigger] a.contains_key(k) <==> b.contains_key(k) by {
        if k == keys[i] as int {
            lemma_canvas_at(keys, pixels, i);
        }
    }
    assert forall|k: int| a.contains_key(k) implies #[trigger] a[k] == b[k] by {
        let j = choose|j: int| 0 <= j < keys.len() && keys[j] == k;
        lemma_canvas_at(keys, pixels.update(i, v), j);
        lemma_canvas_at(keys, pixels, j);
    }
    assert(a =~= b);
}

proof fn lemma_canvas_push(keys: Seq<i64>, pixels: Seq<Vec<u8>>, k: i64, v: Vec<u8>)
    requires
        keys.len() == pixels.len(),
        keys.no_duplicates(),
        !keys.contains(k),
    ensures
        keys.push(k).no_duplicates(),
        canvas_of(keys.push(k), pixels.push(v)) == canvas_of(keys, pixels).insert(k as int, v@),
{
    let keys2 = keys.push(k);
    let pixels2 = pixels.push(v);
    assert forall|a: int, b: int| 0 <= a < keys2.len() && 0 <= b < keys2.len() && a != b
        implies keys2[a] != keys2[b] by {
        if a == keys.len() {
            assert(keys[b] == keys2[b]);
        } else if b == keys.len() {
            assert(keys[a] == keys2[a]);
        }
    }
    let x = canvas_of(keys2, pixels2);
    let y = canvas_of(keys, pixels).insert(k as int, v@);
    assert forall|q: int| #[trigger] x.contains_key(q) <==> y.contains_key(q) by {
        if x.contains_key(q) {
            let j = choose|j: int| 0 <= j < keys2.len() && keys2[j] == q;
            if j < keys.len() {
                lemma_canvas_at(keys, pixels, j);
            }
        }
        if y.contains_key(q) && q != k as int {
            let j = choose|j: int| 0 <= j < keys.len() && keys[j] == q;
            lemma_canvas_at(keys2, pixels2, j);
        }
        if q == k as int {
            lemma_canvas_at(keys2, pixels2, keys.len() as int);
        }
    }
    assert forall|q: int| x.contains_key(q) implies #[trigger] x[q] == y[q] by {
        let j = choose|j: int| 0 <= j < keys2.len() && keys2[j] == q;
        lemma_canvas_at(keys2, pixels2, j);
        if j < keys.len() {
            lemma_canvas_at(keys, pixels, j);
        }
    }
    assert(x =~= y);
}

/// Index of the row with offset `key`, if there is one.
fn find_row(keys: &Vec<i64>, key: i64) -> (r: Option<usize>)
    ensures
        match r {
            Some(i) => i < keys.len() && keys[i as int] == key,
            None => !keys@.contains(key),
        },
{
    let mut i: usize = 0;
    while i < keys.len()
        invariant
            i <= keys.len(),
            forall|j: int| 0 <= j < i ==> keys[j] != key,
        decreases keys.len() - i,
    {
        if keys[i] == key {
            return Some(i);
        }
        i = i + 1;
    }
    None
}

/// Adds `src[start..start + w]` onto `row` from column `offset` on, padding
/// the row with zeros first where it is too short.
fn blit_line_exec(row: &mut Vec<u8>, offset: usize, src: &[u8], start: usize, w: usize)
    requires
        start + w <= src@.len(),
        offset + w <= usize::MAX,
    ensures
        final(row)@ == blit_line(old(row)@, offset as int, src@.subrange(start as int, start + w)),
{
    let ghost orig = old(row)@;
    let end: usize = offset + w;
    while row.len() < end
        invariant
            end == offset + w,
            row@.len() >= orig.len(),
            row@.len() == orig.len() || row@.len() <= end,
            row@.subrange(0, orig.len() as int) == orig,
            forall|c: int| orig.len() <= c < row@.len() ==> row@[c] == 0u8,
        decreases end - row@.len(),
    {
        row.push(0);
    }
    let ghost g = row@;
    assert(g =~= grown(orig, end as int));
    let ghost line = src@.subrange(start as int, start + w);
    let n: usize = src.len();
    let mut x: usize = 0;
    while x < w
        invariant
            x <= w,
            end == offset + w,
            start + w <= src@.len(),
            g.len() >= end,
            line == src@.subrange(start as int, start + w),
            n == src@.len(),
            row@.len() == g.len(),
            forall|c: int|
                #![trigger row@[c]]
                0 <= c < g.len() ==> row@[c] == if offset <= c < offset + x {
                    blend(g[c], line[c - offset])
                } else {
                    g[c]
                },
        decreases w - x,
    {
        let existing: u8 = row[offset + x];
        let val: u8 = src[start + x];
        let sum = clamp(val as i64 + existing as i64, 0, 255) as u8;
        row.set(offset + x, sum);
        x = x + 1;
    }
    assert(row@ =~= blit_line(orig, offset as int, line));
}

proof fn lemma_blit_canvas_step(m: Map<int, Seq<u8>>, ox: int, first: int, w: int, y: int, src: Seq<u8>)
    requires
        w > 0,
        y >= 0,
    ensures
        existing_row(blit_canvas(m, ox, first, w, y, src), first + y) == existing_row(m, first + y),
        blit_canvas(m, ox, first, w, y + 1, src) == blit_canvas(m, ox, first, w, y, src).insert(
            first + y,
            blit_line(existing_row(m, first + y), ox, bitmap_line(src, w, y)),
        ),
{
    assert(blit_canvas(m, ox, first, w, y + 1, src) =~= blit_canvas(m, ox, first, w, y, src).insert(
        first + y,
        blit_line(existing_row(m, first + y), ox, bitmap_line(src, w, y)),
    ));
}

proof fn lemma_row_index_bound(y: int, w: int, h: int, len: int)
    requires
        0 <= y < h,
        0 <= w,
        w * h <= len,
    ensures
        0 <= y * w,
        y * w + w <= len,
{
    assert(y * w + w <= w * h) by (nonlinear_arith)
        requires
            0 <= y < h,
            0 <= w,
    ;
    assert(0 <= y * w) by (nonlinear_arith)
        requires
            0 <= y,
            0 <= w,
    ;
}

/// Adds a `size.0` x `size.1` coverage bitmap onto the rows of `dst`: its
/// left column lands on column `offset`, its top row on offset `-top` from
/// the baseline. Each touched pixel becomes the sum of its old value and the
/// bitmap's, clamped to 255; rows are created and padded as needed.
pub fn sw_blit_to_buffer(offset: usize, size: (u32, u32), top: i32, dst: &mut TextTextureData, src: &[u8])
    requires
        old(dst).wf(),
        size.0 * size.1 <= src@.len(),
        offset + size.0 <= usize::MAX,
    ensures
        final(dst).wf(),
        final(dst).canvas() == blit_canvas(
            old(dst).canvas(),
            offset as int,
            -top,
            size.0 as int,
            size.1 as int,
            src@,
        ),
        final(dst).width == old(dst).width,
        final(dst).height == old(dst).height,
        final(dst).data == old(dst).data,
{
    let ghost m0 = dst.canvas();
    if size.0 == 0 {
        return;
    }
    let w: usize = size.0 as usize;
    let first: i64 = -(top as i64);
    let n: usize = src.len();
    let mut y: u32 = 0;
    while y < size.1
        invariant
            dst.wf(),
            0 <= y <= size.1,
            w == size.0,
            w > 0,
            first == -top,
            size.0 * size.1 <= src@.len(),
            n == src@.len(),
            offset + size.0 <= usize::MAX,
            dst.canvas() == blit_canvas(m0, offset as int, first as int, w as int, y as int, src@),
            dst.width == old(dst).width,
            dst.height == old(dst).height,
            dst.data == old(dst).data,
        decreases size.1 - y,
    {
        proof {
            lemma_row_index_bound(y as int, w as int, size.1 as int, src@.len() as int);
        }
        let key: i64 = first + y as i64;
        let start: usize = (y as usize) * w;
        let ghost before = dst.canvas();
        let ghost line = bitmap_line(src@, w as int, y as int);
        assert(src@.subrange(start as int, start + w) == line);
        match find_row(&dst.row_keys, key) {
            Some(i) => {
                proof {
                    lemma_canvas_at(dst.row_keys@, dst.row_pixels@, i as int);
                }
                let mut row: Vec<u8> = Vec::new();
                dst.row_pixels.set_and_swap(i, &mut row);
                blit_line_exec(&mut row, offset, src, start, w);
                let ghost pix0 = dst.row_pixels@;
                dst.row_pixels.set(i, row);
                proof {
                    lemma_canvas_update(dst.row_keys@, pix0, i as int, row);
                    assert(pix0.update(i as int, row) == dst.row_pixels@);
                    lemma_blit_canvas_step(m0, offset as int, first as int, w as int, y as int, src@);
                }
            },
            None => {
                let mut row: Vec<u8> = Vec::new();
                blit_line_exec(&mut row, offset, src, start, w);
                proof {
                    lemma_canvas_push(dst.row_keys@, dst.row_pixels@, key, row);
                }
                dst.row_keys.push(key);
                dst.row_pixels.push(row);
                proof {
                    lemma_blit_canvas_step(m0, offset as int, first as int, w as int, y as int, src@);
                }
            },
        }
        y = y + 1;
    }
    assert(dst.canvas() =~= blit_canvas(m0, offset as int, -top, size.0 as int, size.1 as int, src@));
}

/// Number of keys of `dom` below `k`: the position of row `k` among the
/// rows in ascending order.
pub open spec fn rank(dom: Set<int>, k: int) -> nat {
    dom.filter(|j: int| j < k).len()
}

/// `row` cut or zero-padded to exactly `width` pixels.
pub open spec fn padded(row: Seq<u8>, width: int) -> Seq<u8> {
    Seq::new(width as nat, |c: int| if c < row.len() { row[c] } else { 0u8 })
}

/// `t` holds canvas `m` flattened: one row of `t.width` pixels per row of
/// `m`, in ascending order of offset, each zero-padded to the widest row.
pub open spec fn flattened(t: TextTextureData, m: Map<int, Seq<u8>>) -> bool {
    &&& m.dom().finite()
    &&& t.height == m.dom().len()
    &&& forall|k: int| m.contains_key(k) ==> #[trigger] m[k].len() <= t.width
    &&& (t.width == 0 || exists|k: int| m.contains_key(k) && #[trigger] m[k].len() == t.width)
    &&& t.data@.len() == t.width * t.height
    &&& forall|k: int, c: int|
        m.contains_key(k) && 0 <= c < t.width ==> t.data@[rank(m.dom(), k) * t.width + c]
            == #[trigger] padded(m[k], t.width as int)[c]
}

pub open spec fn int_keys(keys: Seq<i64>) -> Seq<int> {
    keys.map_values(|k: i64| k as int)
}

proof fn lemma_canvas_dom(keys: Seq<i64>, pixels: Seq<Vec<u8>>)
    requires
        keys.len() == pixels.len(),
        keys.no_duplicates(),
    ensures
        canvas_of(keys, pixels).dom() == int_keys(keys).to_set(),
        int_keys(keys).no_duplicates(),
        canvas_of(keys, pixels).dom().finite(),
        canvas_of(keys, pixels).dom().len() == keys.len(),
{
    let ik = int_keys(keys);
    assert forall|k: int| #[trigger] canvas_of(keys, pixels).dom().contains(k) <==> ik.to_set().contains(k) by {
        if ik.to_set().contains(k) {
            let i = choose|i: int| 0 <= i < ik.len() && ik[i] == k;
            assert(keys[i] == k);
        }
        if canvas_of(keys, pixels).dom().contains(k) {
            let i = choose|i: int| 0 <= i < keys.len() && keys[i] == k;
            assert(ik[i] == k);
        }
    }
    assert(canvas_of(keys, pixels).dom() =~= ik.to_set());
    assert(ik.no_duplicates());
    ik.unique_seq_to_set();
}

/// Relies on itertools::Itertools::sorted: the keys in ascending order, none
/// lost or added.
#[verifier::external_body]
fn sorted_keys(keys: &Vec<i64>) -> (r: Vec<i64>)
    ensures
        r@.to_multiset() == keys@.to_multiset(),
        forall|i: int, j: int| 0 <= i <= j < r@.len() ==> r@[i] <= r@[j],
{
    keys.iter().copied().sorted().collect()
}

proof fn lemma_sorted_unique(keys: Seq<i64>, ks: Seq<i64>)
    requires
        keys.no_duplicates(),
        ks.to_multiset() == keys.to_multiset(),
        forall|i: int, j: int| 0 <= i <= j < ks.len() ==> ks[i] <= ks[j],
    ensures
        ks.len() == keys.len(),
        ks.no_duplicates(),
        forall|i: int, j: int| 0 <= i < j < ks.len() ==> ks[i] < ks[j],
        forall|k: i64| ks.contains(k) <==> keys.contains(k),
{
    broadcast use group_to_multiset_ensures;
    ks.to_multiset_ensures();
    keys.to_multiset_ensures();
    keys.lemma_multiset_has_no_duplicates();
    ks.lemma_multiset_has_no_duplicates_conv();
    assert(ks.to_multiset().len() == keys.to_multiset().len());
    assert forall|k: i64| ks.contains(k) <==> keys.contains(k) by {
        assert(ks.to_multiset().count(k) == keys.to_multiset().count(k));
        assert(ks.contains(k) <==> ks.to_multiset().count(k) > 0);
        assert(keys.contains(k) <==> keys.to_multiset().count(k) > 0);
    }
}

proof fn lemma_rank(ks: Seq<int>, r: int)
    requires
        forall|i: int, j: int| 0 <= i < j < ks.len() ==> ks[i] < ks[j],
        0 <= r < ks.len(),
    ensures
        rank(ks.to_set(), ks[r]) == r,
{
    let p = ks.subrange(0, r);
    let s = ks.to_set().filter(|j: int| j < ks[r]);
    assert forall|x: int| #[trigger] s.contains(x) <==> p.to_set().contains(x) by {
        if s.contains(x) {
            let i = choose|i: int| 0 <= i < ks.len() && ks[i] == x;
            if i >= r {
                assert(ks[r] <= ks[i]);
            }
            assert(p[i] == x);
        }
        if p.to_set().contains(x) {
            let i = choose|i: int| 0 <= i < p.len() && p[i] == x;
            assert(ks[i] == x);
        }
    }
    assert(s =~= p.to_set());
    assert(p.no_duplicates());
    p.unique_seq_to_set();
}

proof fn lemma_block_index(r: int, q: int, w: int, c: int)
    requires
        0 <= q < r,
        0 <= c < w,
    ensures
        0 <= q * w + c < r * w,
        q * w + c < (q + 1) * w,
{
    assert(0 <= q * w + c < r * w) by (nonlinear_arith)
        requires
            0 <= q < r,
            0 <= c < w,
    ;
    assert(q * w + c < (q + 1) * w) by (nonlinear_arith)
        requires
            0 <= c < w,
    ;
}

/// Turns the sparse rows of `data` into its flat bitmap: `height` is the
/// number of rows, `width` the longest row, and `data` holds the rows in
/// ascending order of offset, each zero-padded to `width`. The sparse rows are
/// dropped afterwards.
pub fn flatten_rows(data: &mut TextTextureData)
    requires
        old(data).wf(),
    ensures
        final(data).wf(),
        final(data).canvas() == Map::<int, Seq<u8>>::empty(),
        flattened(*final(data), old(data).canvas()),
{
    let ghost m = data.canvas();
    proof {
        lemma_canvas_dom(data.row_keys@, data.row_pixels@);
    }
    let n: usize = data.row_keys.len();
    let mut max_width: usize = 0;
    let mut i: usize = 0;
    while i < n
        invariant
            data.wf(),
            data.canvas() == m,
            n == data.row_keys.len(),
            i <= n,
            forall|j: int| 0 <= j < i ==> data.row_pixels@[j]@.len() <= max_width,
            max_width == 0 || exists|j: int| 0 <= j < i && data.row_pixels@[j]@.len() == max_width,
        decreases n - i,
    {
        if data.row_pixels[i].len() > max_width {
            max_width = data.row_pixels[i].len();
        }
        i = i + 1;
    }
    proof {
        assert forall|k: int| m.contains_key(k) implies #[trigger] m[k].len() <= max_width by {
            let j = choose|j: int| 0 <= j < data.row_keys.len() && data.row_keys[j] == k;
            lemma_canvas_at(data.row_keys@, data.row_pixels@, j);
        }
        if max_width != 0 {
            let j = choose|j: int| 0 <= j < n && data.row_pixels@[j]@.len() == max_width;
            lemma_canvas_at(data.row_keys@, data.row_pixels@, j);
            assert(m.contains_key(data.row_keys@[j] as int) && m[data.row_keys@[j] as int].len() == max_width);
        }
    }
    let ks = sorted_keys(&data.row_keys);
    let ghost iks = int_keys(ks@);
    proof {
        lemma_sorted_unique(data.row_keys@, ks@);
        assert forall|x: int| #[trigger] iks.to_set().contains(x) <==> m.dom().contains(x) by {
            if iks.to_set().contains(x) {
                let i = choose|i: int| 0 <= i < iks.len() && iks[i] == x;
                assert(ks@.contains(ks@[i]));
                assert(data.row_keys@.contains(ks@[i]));
                let j = choose|j: int| 0 <= j < data.row_keys.len() && data.row_keys@[j] == ks@[i];
                assert(int_keys(data.row_keys@)[j] == x);
            }
            if m.dom().contains(x) {
                let j = choose|j: int| 0 <= j < data.row_keys.len() && data.row_keys@[j] == x;
                assert(data.row_keys@.contains(data.row_keys@[j]));
                assert(ks@.contains(data.row_keys@[j]));
                let i = choose|i: int| 0 <= i < ks@.len() && ks@[i] == data.row_keys@[j];
                assert(iks[i] == x);
            }
        }
        assert(iks.to_set() =~= m.dom());
    }
    let mut out: Vec<u8> = Vec::new();
    let mut r: usize = 0;
    while r < n
        invariant
            data.wf(),
            data.canvas() == m,
            n == data.row_keys.len(),
            ks@.len() == n,
            iks == int_keys(ks@),
            iks.to_set() == m.dom(),
            forall|a: int, b: int| 0 <= a < b < ks@.len() ==> ks@[a] < ks@[b],
            r <= n,
            out@.len() == r * max_width,
            forall|q: int, c: int|
                0 <= q < r && 0 <= c < max_width ==> out@[q * max_width + c]
                    == #[trigger] padded(m[iks[q]], max_width as int)[c],
        decreases n - r,
    {
        let k: i64 = ks[r];
        proof {
            assert(iks.to_set().contains(iks[r as int]));
        }
        let ghost out0 = out@;
        match find_row(&data.row_keys, k) {
            Some(i) => {
                proof {
                    lemma_canvas_at(data.row_keys@, data.row_pixels@, i as int);
                }
                let row = &data.row_pixels[i];
                let mut c: usize = 0;
                while c < max_width
                    invariant
                        c <= max_width,
                        out@.len() == out0.len() + c,
                        out0.len() == r * max_width,
                        out@.subrange(0, out0.len() as int) == out0,
                        row@ == m[k as int],
                        forall|x: int| 0 <= x < c ==> out@[out0.len() + x]
                            == #[trigger] padded(m[k as int], max_width as int)[x],
                    decreases max_width - c,
                {
                    if c < row.len() {
                        out.push(row[c]);
                    } else {
                        out.push(0);
                    }
                    c = c + 1;
                }
            },
            None => {
                proof {
                    let j = choose|j: int| 0 <= j < data.row_keys.len() && data.row_keys@[j] == k as int;
                    assert(data.row_keys@.contains(data.row_keys@[j]));
                }
            },
        }
        proof {
            assert((r + 1) * max_width == r * max_width + max_width) by (nonlinear_arith);
            assert forall|q: int, c: int|
                0 <= q < r + 1 && 0 <= c < max_width implies out@[q * max_width + c]
                    == #[trigger] padded(m[iks[q]], max_width as int)[c] by {
                if q < r {
                    lemma_block_index(r as int, q, max_width as int, c);
                    assert(out@[q * max_width + c] == out0[q * max_width + c]);
                } else {
                    assert(q * max_width + c == out0.len() + c);
                }
            }
        }
        r = r + 1;
    }
    proof {
        assert forall|k: int, c: int|
            m.contains_key(k) && 0 <= c < max_width implies out@[rank(m.dom(), k) * max_width + c]
                == #[trigger] padded(m[k], max_width as int)[c] by {
            assert(iks.to_set().contains(k));
            let q = choose|q: int| 0 <= q < iks.len() && iks[q] == k;
            lemma_rank(iks, q);
        }
    }
    assert(n * max_width == max_width * n) by (nonlinear_arith);
    data.height = n;
    data.width = max_width;
    data.data = out;
    data.row_keys = Vec::new();
    data.row_pixels = Vec::new();
    assert(data.canvas() =~= Map::<int, Seq<u8>>::empty());
}

/// Pixels the pen moves right after a glyph with advance `adv` (1/64 pixel);
/// a backward advance does not move it.
pub open spec fn advance_px(adv: i64) -> int {
    if adv > 0 {
        adv / 64
    } else {
        0
    }
}

/// Pen position after moving `cursor` by `adv`, stopping at the largest column.
pub open spec fn next_cursor(cursor: int, adv: i64) -> int {
    if cursor + advance_px(adv) > usize::MAX {
        usize::MAX as int
    } else {
        cursor + advance_px(adv)
    }
}

/// A glyph can be placed at column `cursor`: its sizes are not negative, its
/// buffer covers them, and its right edge is a representable column.
pub open spec fn glyph_fits(g: ShapedGlyph, cursor: int) -> bool {
    &&& g.width >= 0
    &&& g.rows >= 0
    &&& g.width * g.rows <= g.buffer@.len()
    &&& cursor + g.width <= usize::MAX
}

/// Canvas and pen position after laying out `gs` from column 0. Each glyph
/// that fits is added at the pen with its top row `top` rows above the
/// baseline, then the pen advances; a missing or unusable glyph is skipped
/// and leaves the pen where it is. Only the horizontal advance moves the pen:
/// every row offset is taken from the baseline.
pub open spec fn layout(gs: Seq<Option<ShapedGlyph>>) -> (Map<int, Seq<u8>>, int)
    decreases gs.len(),
{
    if gs.len() == 0 {
        (Map::empty(), 0)
    } else {
        let prev = layout(gs.drop_last());
        match gs.last() {
            Some(g) => if glyph_fits(g, prev.1) {
                (
                    blit_canvas(prev.0, prev.1, -g.top, g.width as int, g.rows as int, g.buffer@),
                    next_cursor(prev.1, g.advance_x),
                )
            } else {
                prev
            },
            None => prev,
        }
    }
}

/// Rasterizes a line of shaped glyphs into `data`, replacing what it held:
/// glyphs are composited at the pen position with clamped additive blending,
/// then the rows are flattened.
pub fn sw_render_glyphs_to_buffer(glyphs: &Vec<Option<ShapedGlyph>>, data: &mut TextTextureData)
    ensures
        final(data).wf(),
        final(data).canvas() == Map::<int, Seq<u8>>::empty(),
        flattened(*final(data), layout(glyphs@).0),
{
    *data = TextTextureData::default();
    let mut cursor: usize = 0;
    let mut i: usize = 0;
    while i < glyphs.len()
        invariant
            i <= glyphs@.len(),
            data.wf(),
            data.canvas() == layout(glyphs@.take(i as int)).0,
            cursor == layout(glyphs@.take(i as int)).1,
        decreases glyphs@.len() - i,
    {
        proof {
            assert(glyphs@.take(i + 1).drop_last() =~= glyphs@.take(i as int));
            assert(glyphs@.take(i + 1).last() == glyphs@[i as int]);
        }
        match &glyphs[i] {
            Some(g) => {
                if g.width >= 0 && g.rows >= 0 {
                    proof {
                        assert((g.width as u64) * (g.rows as u64) <= 0x4000_0000_0000_0000) by (nonlinear_arith)
                            requires
                                0 <= g.width <= 0x8000_0000,
                                0 <= g.rows <= 0x8000_0000,
                        ;
                    }
                    let area: u64 = (g.width as u64) * (g.rows as u64);
                    if area <= g.buffer.len() as u64 && cursor <= usize::MAX - g.width as usize {
                        sw_blit_to_buffer(cursor, (g.width as u32, g.rows as u32), g.top, data, g.buffer.as_slice());
                        if g.advance_x > 0 {
                            let step: u64 = (g.advance_x as u64) / 64;
                            if step > (usize::MAX - cursor) as u64 {
                                cursor = usize::MAX;
                            } else {
                                cursor = cursor + step as usize;
                            }
                        }
                    }
                }
            },
            None => {},
        }
        i = i + 1;
    }
    proof {
        assert(glyphs@.take(glyphs@.len() as int) =~= glyphs@);
    }
    flatten_rows(data);
}

/// A loaded font face of freetype, carried through opaquely.
#[verifier::external_type_specification]
#[verifier::external_body]
#[verifier::reject_recursive_types(BYTES)]
pub struct ExFace<BYTES>(freetype::Face<BYTES>);

/// Relies on freetype::Face::load_char with rendering, then on the glyph slot's
/// bitmap (buffer, width, rows), bitmap_top and advance. None when the
/// character cannot be loaded. The outcome depends on the font that was
/// loaded, so nothing is promised of it.
#[verifier::external_body]
fn shape_char(face: &freetype::Face, c: char) -> (r: Option<ShapedGlyph>) {
    face.load_char(c as usize, freetype::face::LoadFlag::RENDER).ok()?;
    let glyph = face.glyph();
    let bitmap = glyph.bitmap();
    Some(ShapedGlyph {
        buffer: bitmap.buffer().to_vec(),
        width: bitmap.width(),
        rows: bitmap.rows(),
        top: glyph.bitmap_top(),
        advance_x: glyph.advance().x,
    })
}

/// Rasterizes `text` with `face` into `data`: each character is shaped in
/// turn, a character that cannot be shaped is skipped, and the line is then
/// composited as `sw_render_glyphs_to_buffer` does.
pub fn sw_render_text_to_buffer(face: &freetype::Face, text: &str, data: &mut TextTextureData)
    ensures
        final(data).wf(),
        exists|gs: Seq<Option<ShapedGlyph>>|
            gs.len() == text@.len() && flattened(*final(data), #[trigger] layout(gs).0),
        final(data).data@.len() == final(data).width * final(data).height,
        text@.len() == 0 ==> final(data).width == 0 && final(data).height == 0,
{
    let n: usize = text.unicode_len();
    let mut glyphs: Vec<Option<ShapedGlyph>> = Vec::new();
    let mut i: usize = 0;
    while i < n
        invariant
            n == text@.len(),
            i <= n,
            glyphs@.len() == i,
        decreases n - i,
    {
        let c = text.get_char(i);
        glyphs.push(shape_char(face, c));
        i = i + 1;
    }
    sw_render_glyphs_to_buffer(&glyphs, data);
    proof {
        if n == 0 {
            assert(glyphs@ =~= Seq::<Option<ShapedGlyph>>::empty());
            assert(layout(glyphs@).0 == Map::<int, Seq<u8>>::empty());
            assert(Map::<int, Seq<u8>>::empty().dom() =~= Set::<int>::empty());
        }
    }
}

/// Where two glyph bitmaps overlap, the pixel is the old value plus both
/// coverages, clamped to 255: the blend saturates, it never wraps around.
pub proof fn lemma_overlap_saturates(
    row: Seq<u8>,
    ox1: int,
    line1: Seq<u8>,
    ox2: int,
    line2: Seq<u8>,
    c: int,
)
    requires
        0 <= ox1 <= c < ox1 + line1.len(),
        0 <= ox2 <= c < ox2 + line2.len(),
    ensures
        blit_line(blit_line(row, ox1, line1), ox2, line2)[c] as int == clamp_spec(
            (if c < row.len() { row[c] as int } else { 0 }) + line1[c - ox1] + line2[c - ox2],
            0,
            255,
        ),
{
    let once = blit_line(row, ox1, line1);
    assert(grown(row, ox1 + line1.len())[c] == if c < row.len() { row[c] } else { 0u8 });
    assert(once.len() > c);
    assert(grown(once, ox2 + line2.len())[c] == once[c]);
}

/// A rasterized line is a `width` x `height` bitmap, `height` being the
/// number of pixel rows the glyphs cover and `width` the right edge of the
/// widest of them; a line without glyphs gives an empty bitmap.
pub proof fn lemma_text_bitmap_shape(t: TextTextureData, glyphs: Seq<Option<ShapedGlyph>>)
    requires
        flattened(t, layout(glyphs).0),
    ensures
        t.data@.len() == t.width * t.height,
        t.height == layout(glyphs).0.dom().len(),
        forall|k: int| layout(glyphs).0.contains_key(k) ==> #[trigger] layout(glyphs).0[k].len() <= t.width,
        glyphs.len() == 0 ==> t.width == 0 && t.height == 0,
{
    if glyphs.len() == 0 {
        assert(layout(glyphs).0.dom() =~= Set::<int>::empty());
    }
}

} // verus!
