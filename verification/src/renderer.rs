//! The registry of open documents and the renderer's tile cache.
//!
//! A `Renderer` owns the PDF engine handle (`E`) and the open documents
//! (`D`), each under a session key handed out from 1 upwards and never
//! reused. Work that only the PDF engine can do (rasterizing a page, reading
//! bookmarks, finding text) is handed in as a function of the document.

use crate::error::{ErrorView, RenderError};
use crate::outline::{build_outline, nodes_view, outline_spec, BookmarkTree, OutlineNode};
use crate::png::{encode_png, png_encoding, RasterImage};
use crate::search::{
    found_lists_view, hits_view, is_blank, is_blank_spec, push_page_hits, search_outcome, search_run,
    lemma_search_run_push, SearchResults, SearchStep, MAX_SEARCH_HITS,
};
use crate::tile_cache::{
    order_after_put, other_doc_keys, tiles_after_put, TileCache, TileKey,
};
use std::collections::HashMap;
use vstd::prelude::*;

verus! {

broadcast use vstd::std_specs::hash::group_hash_axioms;

/// The viewer's renderer: PDF engine, open documents and cached tiles.
pub struct Renderer<E, D> {
    engine: E,
    docs: HashMap<u32, D>,
    next_key: u32,
    tiles: TileCache,
}

/// The outcome of rendering a tile from the rasterizer's outcome `raster`:
/// a rasterizer failure is passed on; a raster whose buffer does not hold
/// four bytes per pixel is the engine's image error; otherwise the PNG
/// encoding, or the encoder's error as an image error.
pub open spec fn png_outcome(raster: Result<RasterImage, RenderError>) -> Result<Seq<u8>, ErrorView> {
    match raster {
        Err(e) => Err(e@),
        Ok(img) => if img.rgba@.len() != img.width as int * img.height as int * 4 {
            Err(ErrorView::Pdfium("ImageError"@))
        } else {
            match png_encoding(img.width, img.height, img.rgba@) {
                Ok(bytes) => Ok(bytes),
                Err(m) => Err(ErrorView::Image(m)),
            }
        },
    }
}

/// The value of an outcome that carries bytes.
pub open spec fn bytes_result_view(r: Result<Vec<u8>, RenderError>) -> Result<Seq<u8>, ErrorView> {
    match r {
        Ok(b) => Ok(b@),
        Err(e) => Err(e@),
    }
}

/// The value of one page's search outcome.
pub open spec fn found_view<R>(o: Result<Vec<Vec<R>>, RenderError>) -> Result<Seq<Seq<R>>, ErrorView> {
    match o {
        Ok(v) => Ok(found_lists_view(v@)),
        Err(e) => Err(e@),
    }
}

/// The values of the outcomes of the pages searched.
pub open spec fn outs_view<R>(outs: Seq<Result<Vec<Vec<R>>, RenderError>>) -> Seq<Result<Seq<Seq<R>>, ErrorView>> {
    outs.map_values(|o: Result<Vec<Vec<R>>, RenderError>| found_view(o))
}

/// The value of a search's outcome.
pub open spec fn search_result_view<R>(r: Result<SearchResults<R>, RenderError>) -> Result<
    (Seq<(u16, Seq<R>)>, bool),
    ErrorView,
> {
    match r {
        Ok(res) => Ok((hits_view(res.hits@), res.truncated)),
        Err(e) => Err(e@),
    }
}

impl<E, D> Renderer<E, D> {
    /// The open documents by session key.
    pub closed spec fn documents(&self) -> Map<u32, D> {
        self.docs@
    }

    /// The key that the next opened document gets.
    pub closed spec fn next_key_spec(&self) -> u32 {
        self.next_key
    }

    /// The cached tiles.
    pub closed spec fn tiles(&self) -> Map<TileKey, Seq<u8>> {
        self.tiles.tiles()
    }

    /// The order in which cached tiles are evicted (oldest first).
    pub closed spec fn tile_order(&self) -> Seq<TileKey> {
        self.tiles.order()
    }

    /// The engine handle.
    pub closed spec fn engine_spec(&self) -> E {
        self.engine
    }

    /// The renderer's invariant: keys are handed out from 1 upwards, every
    /// open document has a key below the next one, the tile cache is well
    /// formed, and it only holds tiles of open documents.
    pub closed spec fn well_formed(&self) -> bool {
        &&& self.next_key >= 1
        &&& forall|k: u32| #[trigger] self.docs@.contains_key(k) ==> 1 <= k < self.next_key
        &&& self.tiles.well_formed()
        &&& forall|t: TileKey| #[trigger]
            self.tiles.tiles().contains_key(t) ==> self.docs@.contains_key(t.0)
        &&& vstd::std_specs::hash::obeys_key_model::<u32>()
    }

    /// A renderer around `engine` with no open document.
    pub fn new(engine: E) -> (r: Self)
        ensures
            r.well_formed(),
            r.engine_spec() == engine,
            r.documents() == Map::<u32, D>::empty(),
            r.next_key_spec() == 1,
            r.tiles() == Map::<TileKey, Seq<u8>>::empty(),
    {
        Renderer { engine, docs: HashMap::new(), next_key: 1, tiles: TileCache::new() }
    }

    /// The engine handle.
    pub fn engine(&self) -> (e: &E)
        ensures
            *e == self.engine_spec(),
    {
        &self.engine
    }

    /// The key that the next opened document gets.
    pub fn next_key(&self) -> (k: u32)
        ensures
            k == self.next_key_spec(),
    {
        self.next_key
    }

    /// Registers a loaded document (or reports why loading failed): a
    /// document with `page_count` pages gets the next key and is returned
    /// with its page count; a load failure is classified as
    /// `classify_open_error` does.
    pub fn open(&mut self, loaded: Result<(D, u16), crate::error::OpenFailure>, password_supplied: bool) -> (r:
        Result<(u32, u16), RenderError>)
        requires
            old(self).well_formed(),
            old(self).next_key_spec() < u32::MAX,
        ensures
            final(self).well_formed(),
            final(self).engine_spec() == old(self).engine_spec(),
            final(self).tiles() == old(self).tiles(),
            final(self).tile_order() == old(self).tile_order(),
            match loaded {
                Ok((doc, pages)) => {
                    &&& r == Ok::<(u32, u16), RenderError>((old(self).next_key_spec(), pages))
                    &&& final(self).documents() == old(self).documents().insert(
                        old(self).next_key_spec(),
                        doc,
                    )
                    &&& final(self).next_key_spec() == old(self).next_key_spec() + 1
                },
                Err(f) => {
                    &&& r is Err
                    &&& r->Err_0@ == crate::error::classify_open_error_spec(f, password_supplied)
                    &&& final(self).documents() == old(self).documents()
                    &&& final(self).next_key_spec() == old(self).next_key_spec()
                },
            },
    {
        match loaded {
            Err(f) => Err(crate::error::classify_open_error(f, password_supplied)),
            Ok((doc, page_count)) => {
                let key = self.next_key;
                self.next_key = self.next_key + 1;
                self.docs.insert(key, doc);
                Ok((key, page_count))
            },
        }
    }

    /// Closes document `key`, dropping it and its cached tiles. Closing a key
    /// that is not open changes nothing.
    pub fn close(&mut self, key: u32)
        requires
            old(self).well_formed(),
        ensures
            final(self).well_formed(),
            final(self).engine_spec() == old(self).engine_spec(),
            final(self).documents() == old(self).documents().remove(key),
            final(self).next_key_spec() == old(self).next_key_spec(),
            final(self).tiles() == old(self).tiles().restrict(other_doc_keys(key)),
            final(self).tile_order() == old(self).tile_order().filter(
                crate::tile_cache::other_doc(key),
            ),
    {
        self.docs.remove(&key);
        self.tiles.invalidate_doc(key);
    }

    /// The open document `key`, or `UnknownDocument(key)`.
    pub fn doc(&self, key: u32) -> (r: Result<&D, RenderError>)
        requires
            self.well_formed(),
        ensures
            match r {
                Ok(d) => self.documents().contains_key(key) && *d == self.documents()[key],
                Err(e) => !self.documents().contains_key(key) && e@ == ErrorView::UnknownDocument(
                    key,
                ),
            },
    {
        match self.docs.get(&key) {
            Some(d) => Ok(d),
            None => Err(RenderError::UnknownDocument(key)),
        }
    }

    /// The PNG of page `index` of document `key` at `width` pixels. A cached
    /// tile is returned as it is; otherwise the document is looked up, the
    /// page rasterized by `rasterize`, encoded as PNG, and on success cached
    /// and returned.
    pub fn render_page_png<F: Fn(&D, u16, i32) -> Result<RasterImage, RenderError>>(
        &mut self,
        key: u32,
        index: u16,
        width: i32,
        rasterize: F,
    ) -> (r: Result<Vec<u8>, RenderError>)
        requires
            old(self).well_formed(),
            forall|d: &D| call_requires(rasterize, (d, index, width)),
        ensures
            final(self).well_formed(),
            final(self).engine_spec() == old(self).engine_spec(),
            final(self).documents() == old(self).documents(),
            final(self).next_key_spec() == old(self).next_key_spec(),
            old(self).tiles().contains_key((key, index, width)) ==> {
                &&& bytes_result_view(r) == Ok::<Seq<u8>, ErrorView>(
                    old(self).tiles()[(key, index, width)],
                )
                &&& final(self).tiles() == old(self).tiles()
                &&& final(self).tile_order() == old(self).tile_order()
            },
            !old(self).tiles().contains_key((key, index, width)) && !old(
                self,
            ).documents().contains_key(key) ==> {
                &&& bytes_result_view(r) == Err::<Seq<u8>, ErrorView>(ErrorView::UnknownDocument(key))
                &&& final(self).tiles() == old(self).tiles()
                &&& final(self).tile_order() == old(self).tile_order()
            },
            !old(self).tiles().contains_key((key, index, width)) && old(
                self,
            ).documents().contains_key(key) ==> exists|raster: Result<RasterImage, RenderError>|
                {
                    &&& call_ensures(
                        rasterize,
                        (&old(self).documents()[key], index, width),
                        raster,
                    )
                    &&& bytes_result_view(r) == png_outcome(raster)
                    &&& match png_outcome(raster) {
                        Ok(bytes) => {
                            &&& final(self).tiles() == tiles_after_put(
                                old(self).tiles(),
                                old(self).tile_order(),
                                (key, index, width),
                                bytes,
                            )
                            &&& final(self).tile_order() == order_after_put(
                                old(self).tile_order(),
                                (key, index, width),
                            )
                        },
                        Err(_) => {
                            &&& final(self).tiles() == old(self).tiles()
                            &&& final(self).tile_order() == old(self).tile_order()
                        },
                    }
                },
    {
        let cache_key: TileKey = (key, index, width);
        match self.tiles.get(&cache_key) {
            Some(cached) => {
                let copy = cached.clone();
                assert(copy@ =~= cached@);
                return Ok(copy);
            },
            None => {},
        }
        let png = {
            let doc = match self.docs.get(&key) {
                Some(d) => d,
                None => {
                    return Err(RenderError::UnknownDocument(key));
                },
            };
            let raster = rasterize(doc, index, width);
            let ghost raster_spec = raster;
            let img = match raster {
                Ok(img) => img,
                Err(e) => {
                    assert(png_outcome(raster_spec) == Err::<Seq<u8>, ErrorView>(e@));
                    return Err(e);
                },
            };
            let w = img.width as u64;
            let h = img.height as u64;
            assert(w * h <= 0xffff_ffff * 0xffff_ffff) by (nonlinear_arith)
                requires
                    w <= 0xffff_ffff,
                    h <= 0xffff_ffff,
            ;
            let expected = w * h;
            let len = img.rgba.len() as u64;
            if len % 4 != 0 || len / 4 != expected {
                assert(img.rgba@.len() != img.width as int * img.height as int * 4);
                assert(png_outcome(raster_spec) == Err::<Seq<u8>, ErrorView>(
                    ErrorView::Pdfium("ImageError"@),
                ));
                return Err(RenderError::Pdfium(String::from_str("ImageError")));
            }
            encode_png(img.width, img.height, img.rgba.as_slice())
        };
        self.store_tile(key, index, width, png)
    }

    /// Finishes rendering page `index` of the open document `key` at
    /// `width` pixels from the encoder's outcome: encoded bytes are cached
    /// and returned; an encoder message becomes an image error and nothing
    /// is cached.
    pub fn store_tile(&mut self, key: u32, index: u16, width: i32, encoded: Result<Vec<u8>, String>) -> (r:
        Result<Vec<u8>, RenderError>)
        requires
            old(self).well_formed(),
            old(self).documents().contains_key(key),
        ensures
            final(self).well_formed(),
            final(self).engine_spec() == old(self).engine_spec(),
            final(self).documents() == old(self).documents(),
            final(self).next_key_spec() == old(self).next_key_spec(),
            match encoded {
                Ok(bytes) => {
                    &&& r matches Ok(b) && b@ == bytes@
                    &&& final(self).tiles() == tiles_after_put(
                        old(self).tiles(),
                        old(self).tile_order(),
                        (key, index, width),
                        bytes@,
                    )
                    &&& final(self).tile_order() == order_after_put(
                        old(self).tile_order(),
                        (key, index, width),
                    )
                },
                Err(m) => {
                    &&& r matches Err(e) && e@ == ErrorView::Image(m@)
                    &&& final(self).tiles() == old(self).tiles()
                    &&& final(self).tile_order() == old(self).tile_order()
                },
            },
    {
        match encoded {
            Ok(png) => {
                let copy = png.clone();
                assert(copy@ =~= png@);
                self.tiles.put((key, index, width), copy);
                Ok(png)
            },
            Err(m) => Err(RenderError::Image(m)),
        }
    }

    /// The outline of document `key`: the document is looked up, its
    /// bookmark graph read by `bookmarks`, and the outline built from it
    /// (see `build_outline`).
    pub fn outline<B: Fn(&D) -> BookmarkTree>(&self, key: u32, bookmarks: B) -> (r: Result<
        Vec<OutlineNode>,
        RenderError,
    >)
        requires
            self.well_formed(),
            forall|d: &D| call_requires(bookmarks, (d,)),
        ensures
            match r {
                Ok(nodes) => {
                    &&& self.documents().contains_key(key)
                    &&& exists|tree: BookmarkTree|
                        call_ensures(bookmarks, (&self.documents()[key],), tree) && nodes_view(
                            nodes@,
                        ) == outline_spec(tree)
                },
                Err(e) => !self.documents().contains_key(key) && e@ == ErrorView::UnknownDocument(
                    key,
                ),
            },
    {
        let doc = match self.docs.get(&key) {
            Some(d) => d,
            None => {
                return Err(RenderError::UnknownDocument(key));
            },
        };
        let tree = bookmarks(doc);
        Ok(build_outline(&tree))
    }

    /// Searches document `key` for `query`. A blank query (nothing left after
    /// trimming white space) gives no matches, whether or not the document
    /// is open. Otherwise the document is looked up, its pages counted by
    /// `page_count`, and the pages searched in order by `find` until all are
    /// done, one fails, or a match beyond the first `MAX_SEARCH_HITS` is found
    /// (see `search_outcome`).
    pub fn search<
        R,
        P: Fn(&D) -> u16,
        F: Fn(&D, u16, &str, bool, bool) -> Result<Vec<Vec<R>>, RenderError>,
    >(
        &self,
        key: u32,
        query: &str,
        match_case: bool,
        match_whole_word: bool,
        page_count: P,
        find: F,
    ) -> (r: Result<SearchResults<R>, RenderError>)
        requires
            self.well_formed(),
            forall|d: &D| call_requires(page_count, (d,)),
            forall|d: &D, i: u16| call_requires(find, (d, i, query, match_case, match_whole_word)),
        ensures
            is_blank_spec(query@) ==> (r matches Ok(res) && res.hits@.len() == 0 && !res.truncated),
            !is_blank_spec(query@) && !self.documents().contains_key(key) ==> (r matches Err(e)
                && e@ == ErrorView::UnknownDocument(key)),
            !is_blank_spec(query@) && self.documents().contains_key(key) ==> exists|
                n: u16,
                outs: Seq<Result<Vec<Vec<R>>, RenderError>>,
            |
                #![trigger search_outcome(outs_view(outs), n as nat, search_result_view(r))]
                {
                    &&& call_ensures(page_count, (&self.documents()[key],), n)
                    &&& forall|i: int|
                        0 <= i < outs.len() ==> call_ensures(
                            find,
                            (&self.documents()[key], i as u16, query, match_case, match_whole_word),
                            #[trigger] outs[i],
                        )
                    &&& search_outcome(
                        outs_view(outs),
                        n as nat,
                        search_result_view(r),
                    )
                },
    {
        if is_blank(query) {
            return Ok(SearchResults::empty());
        }
        let doc = match self.docs.get(&key) {
            Some(d) => d,
            None => {
                return Err(RenderError::UnknownDocument(key));
            },
        };
        let n = page_count(doc);
        let mut results: SearchResults<R> = SearchResults::empty();
        let ghost mut outs: Seq<Result<Vec<Vec<R>>, RenderError>> = Seq::empty();
        let mut index: u16 = 0;
        assert(outs_view(outs) =~= Seq::<Result<Seq<Seq<R>>, ErrorView>>::empty());
        assert(hits_view(results.hits@) =~= Seq::<(u16, Seq<R>)>::empty());
        while index < n
            invariant
                !is_blank_spec(query@),
                index <= n,
                call_ensures(page_count, (doc,), n),
                *doc == self.documents()[key],
                self.documents().contains_key(key),
                forall|d: &D, i: u16| call_requires(find, (d, i, query, match_case, match_whole_word)),
                outs.len() == index,
                forall|i: int|
                    0 <= i < outs.len() ==> call_ensures(
                        find,
                        (doc, i as u16, query, match_case, match_whole_word),
                        #[trigger] outs[i],
                    ),
                search_run(outs_view(outs), 0, Seq::empty()) == SearchStep::<R>::Going(
                    hits_view(results.hits@),
                ),
                !results.truncated,
                results.hits@.len() <= MAX_SEARCH_HITS,
            decreases n - index,
        {
            let found = find(doc, index, query, match_case, match_whole_word);
            let ghost found_spec = found;
            let ghost prev = outs;
            proof {
                outs = outs.push(found_spec);
                assert(outs_view(outs) =~= outs_view(prev).push(
                    found_view(found_spec),
                ));
                lemma_search_run_push(
                    outs_view(prev),
                    0,
                    Seq::empty(),
                    found_view(found_spec),
                );
                assert(outs.drop_last() =~= prev);
                assert(outs_view(outs).drop_last() =~= outs_view(prev));
            }
            match found {
                Err(e) => {
                    let r: Result<SearchResults<R>, RenderError> = Err(e);
                    assert(search_outcome(outs_view(outs), n as nat, search_result_view(r)));
                    return r;
                },
                Ok(hits) => {
                    let stop = push_page_hits(&mut results, index, hits);
                    if stop {
                        let r: Result<SearchResults<R>, RenderError> = Ok(results);
                        assert(search_outcome(outs_view(outs), n as nat, search_result_view(r)));
                        return r;
                    }
                },
            }
            index += 1;
        }
        let r: Result<SearchResults<R>, RenderError> = Ok(results);
        assert(search_outcome(outs_view(outs), n as nat, search_result_view(r)));
        r
    }
}

/// The key that the next document gets is not the key of any open document:
/// keys are never reused.
pub proof fn law_fresh_key<E, D>(r: &Renderer<E, D>)
    requires
        r.well_formed(),
    ensures
        !r.documents().contains_key(r.next_key_spec()),
        r.next_key_spec() >= 1,
{
}

/// The cache only holds tiles of open documents.
pub proof fn law_tiles_of_open_documents<E, D>(r: &Renderer<E, D>)
    requires
        r.well_formed(),
    ensures
        forall|t: TileKey| #[trigger] r.tiles().contains_key(t) ==> r.documents().contains_key(t.0),
{
}

/// A document registered by `open` is what `doc` gives back for its key.
pub proof fn law_open_then_doc<D>(docs: Map<u32, D>, key: u32, d: D)
    ensures
        docs.insert(key, d).contains_key(key),
        docs.insert(key, d)[key] == d,
{
}

/// Closing a document twice is the same as closing it once: the documents,
/// the tiles and their eviction order end up the same.
pub proof fn law_close_idempotent<D>(
    docs: Map<u32, D>,
    tiles: Map<TileKey, Seq<u8>>,
    order: Seq<TileKey>,
    key: u32,
)
    ensures
        docs.remove(key).remove(key) == docs.remove(key),
        tiles.restrict(other_doc_keys(key)).restrict(other_doc_keys(key))
            == tiles.restrict(other_doc_keys(key)),
        order.filter(crate::tile_cache::other_doc(key)).filter(crate::tile_cache::other_doc(key))
            == order.filter(crate::tile_cache::other_doc(key)),
{
    assert(docs.remove(key).remove(key) =~= docs.remove(key));
    let keep = other_doc_keys(key);
    assert(tiles.restrict(keep).restrict(keep) =~= tiles.restrict(keep));
    let p = crate::tile_cache::other_doc(key);
    let f = order.filter(p);
    assert forall|i: int| 0 <= i < f.len() implies p(#[trigger] f[i]) by {
        order.lemma_filter_pred(p, i);
    }
    crate::model::lemma_filter_all_pass(f, p);
}

/// After a document is closed, looking it up fails and none of its tiles
/// is cached.
pub proof fn law_closed_is_gone<D>(docs: Map<u32, D>, tiles: Map<TileKey, Seq<u8>>, key: u32)
    ensures
        !docs.remove(key).contains_key(key),
        forall|t: TileKey| #[trigger]
            tiles.restrict(other_doc_keys(key)).contains_key(t) ==> t.0 != key,
{
}

/// One call on the document registry: an `open` of a document that loaded,
/// an `open` whose load failed, or a `close` of a key.
pub enum RegistryCall<D> {
    Opened(D),
    Failed,
    Closed(u32),
}

/// The open documents, the next key, and the keys returned by the
/// successful opens (in call order) after `calls` are made in turn on a
/// registry with documents `docs` and next key `next`, as the contracts of
/// `open` and `close` state each step.
pub open spec fn run_registry<D>(docs: Map<u32, D>, next: u32, calls: Seq<RegistryCall<D>>) -> (
    Map<u32, D>,
    u32,
    Seq<u32>,
)
    decreases calls.len(),
{
    if calls.len() == 0 {
        (docs, next, Seq::empty())
    } else {
        let prev = run_registry(docs, next, calls.drop_last());
        match calls.last() {
            RegistryCall::Opened(d) => (prev.0.insert(prev.1, d), (prev.1 + 1) as u32, prev.2.push(prev.1)),
            RegistryCall::Failed => prev,
            RegistryCall::Closed(k) => (prev.0.remove(k), prev.1, prev.2),
        }
    }
}

/// How many of `calls` are successful opens.
pub open spec fn open_count<D>(calls: Seq<RegistryCall<D>>) -> nat
    decreases calls.len(),
{
    if calls.len() == 0 {
        0
    } else {
        open_count(calls.drop_last()) + if calls.last() is Opened {
            1nat
        } else {
            0nat
        }
    }
}

/// Keys are handed out in call order, one after another, and never reused:
/// over any sequence of opens and closes, the `i`-th successful open returns
/// the starting next key plus `i`, failed opens and closes use up no key,
/// no open document ever has a key at or above the next key, and a
/// document stays open until its key is closed.
pub proof fn law_keys_in_order<D>(docs: Map<u32, D>, next: u32, calls: Seq<RegistryCall<D>>)
    requires
        forall|k: u32| #[trigger] docs.contains_key(k) ==> k < next,
        next + open_count(calls) <= u32::MAX,
    ensures
        run_registry(docs, next, calls).2.len() == open_count(calls),
        forall|i: int|
            0 <= i < run_registry(docs, next, calls).2.len() ==> #[trigger] run_registry(
                docs,
                next,
                calls,
            ).2[i] == next + i,
        run_registry(docs, next, calls).1 == next + open_count(calls),
        forall|k: u32| #[trigger]
            run_registry(docs, next, calls).0.contains_key(k) ==> k < run_registry(docs, next, calls).1,
        forall|k: u32|
            #![trigger run_registry(docs, next, calls).0.contains_key(k)]
            docs.contains_key(k) && (forall|i: int|
                0 <= i < calls.len() ==> #[trigger] calls[i] != RegistryCall::<D>::Closed(k))
                ==> run_registry(docs, next, calls).0.contains_key(k),
    decreases calls.len(),
{
    if calls.len() > 0 {
        law_keys_in_order(docs, next, calls.drop_last());
        assert forall|i: int| 0 <= i < calls.drop_last().len() implies calls.drop_last()[i] == #[trigger] calls[i] by {}
        let prev = run_registry(docs, next, calls.drop_last());
        let cur = run_registry(docs, next, calls);
        match calls.last() {
            RegistryCall::Opened(d) => {
                assert forall|i: int| 0 <= i < cur.2.len() implies #[trigger] cur.2[i] == next + i by {
                    if i < prev.2.len() {
                        assert(cur.2[i] == prev.2[i]);
                    }
                }
            },
            _ => {},
        }
    }
}

} // verus!
