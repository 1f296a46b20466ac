//! Raster output: PNG encoding of rendered RGBA pixels, and the bounded cache
//! of recently encoded frames kept by each rasterizer.
use vstd::prelude::*;
use crate::text::{byte_len, utf8_len};
use std::collections::VecDeque;
use resvg::tiny_skia;

verus! {

#[verifier::external_type_specification]
#[verifier::external_body]
pub struct ExPngEncodingError(png::EncodingError);

/// The bytes `png::Encoder` writes for a `width` x `height` 8-bit RGBA image
/// with the given (straight-alpha) pixel rows.
pub uninterp spec fn png_rgba8(width: u32, height: u32, data: Seq<u8>) -> Seq<u8>;

/// The bytes `tiny_skia::Pixmap::encode_png` writes for a `width` x `height`
/// pixmap holding the given premultiplied RGBA pixels.
pub uninterp spec fn skia_png(width: u32, height: u32, data: Seq<u8>) -> Seq<u8>;

/// Trusted: calls `png::Encoder::new` on a fresh `Vec`, sets 8-bit RGBA,
/// writes the header, then `Writer::write_image_data`. The contract claims
/// that the write succeeds and returns the encoder's output for these
/// arguments: the png source fails such a write only on a zero width or
/// height (`Writer::init`), an invalid colour/depth pair (not RGBA 8), or a
/// buffer whose length is not `4 * width * height`
/// (`write_image_data`), all excluded here, and writes into a `Vec` cannot
/// fail. It also claims that, on opaque pixels of a width tiny-skia can
/// hold, these are the bytes `Pixmap::encode_png` writes: that method
/// demultiplies (which leaves a pixel with alpha 255 unchanged) and then
/// makes exactly these encoder calls on the same png crate.
#[verifier::external_body]
fn png_encode_rgba8(width: u32, height: u32, data: &[u8]) -> (r: Result<Vec<u8>, png::EncodingError>)
    requires
        width > 0,
        height > 0,
        data@.len() == 4 * (width as int) * (height as int),
    ensures
        r is Ok,
        r matches Ok(b) ==> b@ == png_rgba8(width, height, data@),
        r matches Ok(b) ==> (width <= MAX_PIXMAP_WIDTH && all_opaque(data@) ==> b@ == skia_png(width, height, data@)),
{
    let mut bytes = Vec::new();
    {
        let mut encoder = png::Encoder::new(&mut bytes, width, height);
        encoder.set_color(png::ColorType::Rgba);
        encoder.set_depth(png::BitDepth::Eight);
        let mut writer = encoder.write_header()?;
        writer.write_image_data(data)?;
    }
    Ok(bytes)
}

/// Trusted: builds a `tiny_skia::Pixmap` from the pixels (`IntSize::from_wh`
/// accepts nonzero sizes; `Pixmap::from_vec` accepts a width of at most
/// `i32::MAX / 4` whose buffer is `4 * width * height` long, as `requires`
/// demands) and calls `Pixmap::encode_png`, which demultiplies alpha and
/// writes an RGBA PNG with the same png encoder calls as above. The contract
/// claims that this succeeds and returns that output, and that on opaque
/// pixels (which demultiplying leaves unchanged) it is the plain encoder's
/// output for the same pixels.
#[verifier::external_body]
fn skia_encode_png(width: u32, height: u32, data: Vec<u8>) -> (r: Result<Vec<u8>, png::EncodingError>)
    requires
        width > 0,
        width <= MAX_PIXMAP_WIDTH,
        height > 0,
        data@.len() == 4 * (width as int) * (height as int),
    ensures
        r is Ok,
        r matches Ok(b) ==> b@ == skia_png(width, height, data@),
        r matches Ok(b) ==> (all_opaque(data@) ==> b@ == png_rgba8(width, height, data@)),
{
    let size = tiny_skia::IntSize::from_wh(width, height).unwrap();
    tiny_skia::Pixmap::from_vec(data, size).unwrap().encode_png()
}

/// Widest pixmap tiny-skia holds: a row of four-byte pixels must fit in 31
/// bits (`i32::MAX / 4`).
pub const MAX_PIXMAP_WIDTH: u32 = 536870911;

/// Every pixel's alpha byte is 255.
pub open spec fn all_opaque(data: Seq<u8>) -> bool {
    forall|p: int| 0 <= p < data.len() / 4 ==> #[trigger] data[4 * p + 3] == 255
}

/// PNG encoding failed inside the encoder.
#[derive(Debug, PartialEq, Eq, Structural)]
pub enum EncodeError {
    Png,
}

/// PNG of premultiplied RGBA pixels. An opaque image is encoded directly,
/// since premultiplied and straight alpha coincide there; otherwise the
/// pixmap encoder demultiplies first. Encoding always succeeds on a
/// pixmap-sized buffer, and the fast path writes exactly what the pixmap
/// encoder would.
pub fn encode(width: u32, height: u32, data: &[u8]) -> (r: Result<Vec<u8>, EncodeError>)
    requires
        width > 0,
        width <= MAX_PIXMAP_WIDTH,
        height > 0,
        data@.len() == 4 * (width as int) * (height as int),
    ensures
        r matches Ok(b) && b@ == skia_png(width, height, data@),
        r matches Ok(b) && (all_opaque(data@) ==> b@ == png_rgba8(width, height, data@)),
{
    let len = data.len();
    let n = len / 4;
    let mut opaque = true;
    let mut p: usize = 0;
    while p < n
        invariant
            n == data@.len() / 4,
            len == data@.len(),
            p <= n,
            opaque == forall|q: int| 0 <= q < p ==> #[trigger] data@[4 * q + 3] == 255,
        decreases n - p,
    {
        assert(4 * p + 3 < len) by (nonlinear_arith)
            requires p < n, n == len / 4;
        let a = data[4 * p + 3];
        opaque = opaque && a == 255;
        p = p + 1;
    }
    if opaque {
        match png_encode_rgba8(width, height, data) {
            Ok(b) => Ok(b),
            Err(_) => Err(EncodeError::Png),
        }
    } else {
        let mut owned: Vec<u8> = Vec::new();
        let mut i: usize = 0;
        while i < data.len()
            invariant
                i <= data@.len(),
                owned@ == data@.take(i as int),
            decreases data@.len() - i,
        {
            owned.push(data[i]);
            assert(data@.take(i + 1) =~= data@.take(i as int).push(data@[i as int]));
            i = i + 1;
        }
        assert(data@.take(i as int) =~= data@);
        match skia_encode_png(width, height, owned) {
            Ok(b) => Ok(b),
            Err(_) => Err(EncodeError::Png),
        }
    }
}

/// Default byte budget of a rasterizer's frame cache.
pub const DEFAULT_CACHE_BYTES: usize = 16777216;
/// Most frames a cache keeps.
pub const MAX_CACHE_ENTRIES: usize = 64;

/// One cached frame: the SVG text, the sampling density (by its bit
/// pattern; densities are positive and finite, so bit equality is value
/// equality), and the encoded PNG.
pub struct CacheEntry {
    pub svg: String,
    pub density: u32,
    pub png: Vec<u8>,
}

/// An entry as plain values.
pub type EntryView = (Seq<char>, u32, Seq<u8>);

pub open spec fn entry_view(e: CacheEntry) -> EntryView {
    (e.svg@, e.density, e.png@)
}

/// Bytes an entry counts against the budget: SVG text plus PNG.
pub open spec fn entry_size(e: EntryView) -> nat {
    utf8_len(e.0) + e.2.len()
}

pub open spec fn total(es: Seq<EntryView>) -> nat
    decreases es.len(),
{
    if es.len() == 0 { 0 } else { total(es.drop_last()) + entry_size(es.last()) }
}

/// A rasterizer's cache of recently encoded frames, least recently used
/// first. It never holds more than its byte budget or `MAX_CACHE_ENTRIES`.
pub struct RasterCache {
    entries: VecDeque<CacheEntry>,
    bytes: usize,
    budget: usize,
}

impl View for RasterCache {
    type V = Seq<EntryView>;

    closed spec fn view(&self) -> Seq<EntryView> {
        self.entries@.map_values(|e: CacheEntry| entry_view(e))
    }
}

pub proof fn lemma_total_push(es: Seq<EntryView>, e: EntryView)
    ensures
        total(es.push(e)) == total(es) + entry_size(e),
{
    assert(es.push(e).drop_last() =~= es);
}

pub proof fn lemma_total_drop_first(es: Seq<EntryView>)
    requires
        es.len() > 0,
    ensures
        total(es) == entry_size(es[0]) + total(es.drop_first()),
    decreases es.len(),
{
    if es.len() > 1 {
        lemma_total_drop_first(es.drop_last());
        assert(es.drop_last().drop_first() =~= es.drop_first().drop_last());
        assert(es.drop_first().last() == es.last());
        assert(es.drop_last()[0] == es[0]);
    } else {
        assert(es.drop_first().len() == 0);
        assert(total(es.drop_first()) == 0);
        assert(es.drop_last().len() == 0);
        assert(total(es.drop_last()) == 0);
        assert(es.last() == es[0]);
    }
}

pub proof fn lemma_total_remove(es: Seq<EntryView>, i: int)
    requires
        0 <= i < es.len(),
    ensures
        total(es) == total(es.remove(i)) + entry_size(es[i]),
    decreases es.len(),
{
    if i == es.len() - 1 {
        assert(es.remove(i) =~= es.drop_last());
    } else {
        lemma_total_remove(es.drop_last(), i);
        assert(es.remove(i).drop_last() =~= es.drop_last().remove(i));
        assert(es.remove(i).last() == es.last());
    }
}

/// Entries kept after making room for a new one of `size` bytes: the
/// shortest suffix that leaves room in the budget and below the entry limit.
pub open spec fn kept_after_evict(es: Seq<EntryView>, size: nat, budget: nat) -> Seq<EntryView>
    decreases es.len(),
{
    if es.len() == 0 || (total(es) + size <= budget && es.len() < MAX_CACHE_ENTRIES) {
        es
    } else {
        kept_after_evict(es.drop_first(), size, budget)
    }
}

/// Index of the first entry with this key, if any.
pub open spec fn find_key(es: Seq<EntryView>, svg: Seq<char>, density: u32) -> Option<int> {
    if exists|i: int| 0 <= i < es.len() && es[i].0 == svg && es[i].1 == density {
        Some(choose|i: int| 0 <= i < es.len() && es[i].0 == svg && es[i].1 == density
            && forall|j: int| 0 <= j < i ==> !(es[j].0 == svg && es[j].1 == density))
    } else {
        None
    }
}

pub proof fn lemma_find_key_hit(es: Seq<EntryView>, svg: Seq<char>, density: u32, i: int)
    requires
        0 <= i < es.len(),
        es[i].0 == svg && es[i].1 == density,
        forall|j: int| 0 <= j < i ==> !(es[j].0 == svg && es[j].1 == density),
    ensures
        find_key(es, svg, density) == Some(i),
{
    let k = choose|k: int| 0 <= k < es.len() && es[k].0 == svg && es[k].1 == density
        && forall|j: int| 0 <= j < k ==> !(es[j].0 == svg && es[j].1 == density);
    assert(0 <= k < es.len() && es[k].0 == svg && es[k].1 == density
        && forall|j: int| 0 <= j < k ==> !(es[j].0 == svg && es[j].1 == density));
    if k < i {
        assert(!(es[k].0 == svg && es[k].1 == density));
    } else if i < k {
        assert(!(es[i].0 == svg && es[i].1 == density));
    }
}

/// What eviction keeps is a suffix of the entries: the least recently used
/// go first.
pub proof fn lemma_kept_is_suffix(es: Seq<EntryView>, size: nat, budget: nat)
    ensures
        exists|k: int| 0 <= k <= es.len() && #[trigger] kept_after_evict(es, size, budget) == es.subrange(k, es.len() as int),
    decreases es.len(),
{
    if es.len() == 0 || (total(es) + size <= budget && es.len() < MAX_CACHE_ENTRIES) {
        assert(kept_after_evict(es, size, budget) == es.subrange(0, es.len() as int));
    } else {
        lemma_kept_is_suffix(es.drop_first(), size, budget);
        let k = choose|k: int| 0 <= k <= es.drop_first().len()
            && #[trigger] kept_after_evict(es.drop_first(), size, budget) == es.drop_first().subrange(k, es.drop_first().len() as int);
        assert(es.drop_first().subrange(k, es.drop_first().len() as int) =~= es.subrange(k + 1, es.len() as int));
        assert(kept_after_evict(es, size, budget) == es.subrange(k + 1, es.len() as int));
    }
}

/// A frame that was not cached and fits the budget is found by the next
/// lookup right after it is stored, with the PNG that was stored.
pub proof fn lemma_stored_frame_is_found(es: Seq<EntryView>, svg: Seq<char>, density: u32, png: Seq<u8>, budget: nat)
    requires
        find_key(es, svg, density) is None,
        utf8_len(svg) + png.len() <= budget,
    ensures
        ({
            let after = kept_after_evict(es, utf8_len(svg) + png.len(), budget).push((svg, density, png));
            &&& find_key(after, svg, density) == Some(after.len() - 1)
            &&& after[after.len() - 1].2 == png
        }),
{
    let size = utf8_len(svg) + png.len();
    lemma_kept_is_suffix(es, size, budget);
    let kept = kept_after_evict(es, size, budget);
    let k = choose|k: int| 0 <= k <= es.len() && #[trigger] kept_after_evict(es, size, budget) == es.subrange(k, es.len() as int);
    let after = kept.push((svg, density, png));
    assert forall|j: int| 0 <= j < after.len() - 1 implies !(after[j].0 == svg && after[j].1 == density) by {
        assert(after[j] == es[k + j]);
        if es[k + j].0 == svg && es[k + j].1 == density {
            assert(exists|i: int| 0 <= i < es.len() && es[i].0 == svg && es[i].1 == density);
        }
    }
    lemma_find_key_hit(after, svg, density, after.len() - 1);
}

impl RasterCache {
    /// The invariant: the byte count is the entries' total and within budget,
    /// and the entry limit holds.
    pub closed spec fn wf(&self) -> bool {
        &&& self.bytes == total(self@)
        &&& total(self@) <= self.budget
        &&& self@.len() <= MAX_CACHE_ENTRIES
    }

    pub closed spec fn budget_spec(&self) -> nat {
        self.budget as nat
    }

    /// A cache never holds more bytes than its budget, nor more than
    /// `MAX_CACHE_ENTRIES` frames.
    pub proof fn lemma_within_budget(&self)
        requires
            self.wf(),
        ensures
            total(self@) <= self.budget_spec(),
            self@.len() <= MAX_CACHE_ENTRIES,
    {
    }

    /// An empty cache with the given byte budget.
    pub fn with_budget(budget: usize) -> (c: Self)
        ensures
            c.wf(),
            c@ == Seq::<EntryView>::empty(),
            c.budget_spec() == budget,
    {
        let c = RasterCache { entries: VecDeque::new(), bytes: 0, budget };
        assert(c@ =~= Seq::<EntryView>::empty());
        c
    }

    /// An empty cache with the default budget.
    pub fn new() -> (c: Self)
        ensures
            c.wf(),
            c@ == Seq::<EntryView>::empty(),
            c.budget_spec() == DEFAULT_CACHE_BYTES,
    {
        Self::with_budget(DEFAULT_CACHE_BYTES)
    }

    /// Number of cached frames.
    pub fn len(&self) -> (n: usize)
        ensures
            n == self@.len(),
    {
        self.entries.len()
    }

    /// Bytes currently counted against the budget.
    pub fn bytes(&self) -> (n: usize)
        requires
            self.wf(),
        ensures
            n == total(self@),
    {
        self.bytes
    }

    /// Forgets every cached frame.
    pub fn clear(&mut self)
        ensures
            final(self).wf(),
            final(self)@ == Seq::<EntryView>::empty(),
            final(self).budget_spec() == old(self).budget_spec(),
    {
        self.entries.clear();
        self.bytes = 0;
        assert(self@ =~= Seq::<EntryView>::empty());
    }

    /// Looks up a frame by SVG text and density. A hit moves the entry to the
    /// most-recently-used end and returns its PNG; a miss changes nothing.
    pub fn get(&mut self, svg: &str, density: u32) -> (r: Option<Vec<u8>>)
        requires
            old(self).wf(),
        ensures
            final(self).wf(),
            final(self).budget_spec() == old(self).budget_spec(),
            match find_key(old(self)@, svg@, density) {
                Some(i) => r matches Some(p) && p@ == old(self)@[i].2
                    && final(self)@ == old(self)@.remove(i).push(old(self)@[i]),
                None => r is None && final(self)@ == old(self)@,
            },
    {
        let key = svg.to_owned();
        let n = self.entries.len();
        let ghost es = self@;
        let mut i: usize = 0;
        while i < n
            invariant
                n == self.entries@.len(),
                i <= n,
                self@ == es,
                self.wf(),
                self.budget == old(self).budget,
                es == old(self)@,
                key@ == svg@,
                forall|j: int| 0 <= j < i ==> !(es[j].0 == svg@ && es[j].1 == density),
            decreases n - i,
        {
            let e = &self.entries[i];
            assert(es[i as int] == entry_view(self.entries@[i as int]));
            if e.density == density && e.svg == key {
                let entry = self.entries.remove(i).unwrap();
                let png = entry.png.clone();
                assert(png@ =~= entry.png@);
                self.entries.push_back(entry);
                proof {
                    lemma_find_key_hit(es, svg@, density, i as int);
                    assert(self@ =~= es.remove(i as int).push(es[i as int]));
                    lemma_total_remove(es, i as int);
                    lemma_total_push(es.remove(i as int), es[i as int]);
                }
                return Some(png);
            }
            i = i + 1;
        }
        assert(find_key(es, svg@, density) is None);
        None
    }

    /// Stores a freshly encoded frame. A frame larger than the whole budget
    /// is not cached; otherwise least-recently-used entries are evicted until
    /// it fits within the budget and the entry limit, and it becomes the
    /// most recently used entry.
    pub fn insert(&mut self, svg: &str, density: u32, png: Vec<u8>)
        requires
            old(self).wf(),
        ensures
            final(self).wf(),
            final(self).budget_spec() == old(self).budget_spec(),
            ({
                let size = utf8_len(svg@) + png@.len();
                if size <= old(self).budget_spec() {
                    final(self)@ == kept_after_evict(old(self)@, size, old(self).budget_spec()).push((svg@, density, png@))
                } else {
                    final(self)@ == old(self)@
                }
            }),
    {
        let svg_len = byte_len(svg);
        let size = match svg_len.checked_add(png.len()) {
            Some(s) => s,
            None => {
                return;
            },
        };
        if size > self.budget {
            return;
        }
        let ghost budget = self.budget as nat;
        while self.bytes > self.budget - size || self.entries.len() >= MAX_CACHE_ENTRIES
            invariant
                self.wf(),
                self.budget == budget,
                size <= budget,
                size == utf8_len(svg@) + png@.len(),
                kept_after_evict(old(self)@, size as nat, budget) == kept_after_evict(self@, size as nat, budget),
            decreases self@.len(),
        {
            let ghost es = self@;
            assert(es.len() > 0) by {
                if es.len() == 0 {
                    assert(total(es) == 0);
                }
            }
            let old_entry = self.entries.pop_front().unwrap();
            proof {
                assert(self@ =~= es.drop_first());
                lemma_total_drop_first(es);
                assert(es[0] == entry_view(old_entry));
            }
            let freed = byte_len(old_entry.svg.as_str()) + old_entry.png.len();
            self.bytes = self.bytes - freed;
        }
        let entry = CacheEntry { svg: svg.to_owned(), density, png };
        let ghost es = self@;
        self.entries.push_back(entry);
        self.bytes = self.bytes + size;
        proof {
            assert(self@ =~= es.push((svg@, density, entry.png@)));
            lemma_total_push(es, (svg@, density, entry.png@));
        }
    }
}

} // verus!
