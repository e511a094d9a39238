use pdf_shard::error::RenderError;
use pdf_shard::outline::{build_outline, BookmarkEntry, BookmarkTree, OutlineNode};
use pdf_shard::renderer::Renderer;
use pdf_shard::search::{is_blank, push_page_hits, SearchResults, MAX_SEARCH_HITS};

fn entry(title: &str, page: Option<u16>, child: Option<usize>, next: Option<usize>) -> BookmarkEntry {
    BookmarkEntry { title: title.to_string(), page_index: page, first_child: child, next_sibling: next }
}

fn titles(nodes: &[OutlineNode]) -> Vec<String> {
    nodes.iter().map(|n| n.title.clone()).collect()
}

#[test]
fn outline_follows_children_and_siblings_in_order() {
    // A(0) -> children B(1), C(2); D(3) after A; C has child E(4)
    let tree = BookmarkTree {
        entries: vec![
            entry("A", Some(0), Some(1), Some(3)),
            entry("B", Some(1), None, Some(2)),
            entry("C", None, Some(4), None),
            entry("D", Some(5), None, None),
            entry("E", Some(2), None, None),
        ],
        root: Some(0),
    };
    let out = build_outline(&tree);
    assert_eq!(titles(&out), vec!["A", "D"]);
    assert_eq!(titles(&out[0].children), vec!["B", "C"]);
    assert_eq!(out[0].page_index, Some(0));
    assert_eq!(out[0].children[1].page_index, None);
    assert_eq!(titles(&out[0].children[1].children), vec!["E"]);
    assert!(out[1].children.is_empty());
}

#[test]
fn outline_takes_each_bookmark_once_in_a_cycle() {
    // A's child is B, B's child is A again, and B's next sibling is B itself
    let tree = BookmarkTree {
        entries: vec![entry("A", None, Some(1), None), entry("B", None, Some(0), Some(1))],
        root: Some(0),
    };
    let out = build_outline(&tree);
    assert_eq!(titles(&out), vec!["A"]);
    assert_eq!(titles(&out[0].children), vec!["B"]);
    assert!(out[0].children[0].children.is_empty());
}

#[test]
fn outline_stops_below_the_depth_limit() {
    // a chain of 100 nested bookmarks
    let n = 100;
    let entries = (0..n)
        .map(|i| entry(&format!("n{i}"), None, if i + 1 < n { Some(i + 1) } else { None }, None))
        .collect();
    let tree = BookmarkTree { entries, root: Some(0) };
    let out = build_outline(&tree);
    let mut depth = 0;
    let mut level = &out;
    while !level.is_empty() {
        depth += 1;
        level = &level[0].children;
    }
    assert_eq!(depth, 65);
}

#[test]
fn outline_of_a_document_without_bookmarks_is_empty() {
    let tree = BookmarkTree { entries: vec![], root: None };
    assert!(build_outline(&tree).is_empty());
    // a dangling link ends its chain
    let tree = BookmarkTree { entries: vec![entry("A", None, Some(7), Some(9))], root: Some(0) };
    let out = build_outline(&tree);
    assert_eq!(titles(&out), vec!["A"]);
    assert!(out[0].children.is_empty());
}

#[test]
fn renderer_outline_looks_the_document_up() {
    let mut r: Renderer<(), Vec<BookmarkEntry>> = Renderer::new(());
    let (key, _) = r.open(Ok((vec![entry("Intro", Some(0), None, None)], 1)), false).ok().unwrap();
    let read = |d: &Vec<BookmarkEntry>| BookmarkTree {
        entries: d.iter().map(|e| entry(&e.title, e.page_index, e.first_child, e.next_sibling)).collect(),
        root: Some(0),
    };
    let out = r.outline(key, read).ok().unwrap();
    assert_eq!(titles(&out), vec!["Intro"]);
    assert!(matches!(r.outline(key + 1, read), Err(RenderError::UnknownDocument(_))));
}

#[test]
fn blank_queries() {
    assert!(is_blank(""));
    assert!(is_blank(" \t\n\u{3000}\u{a0}"));
    assert!(!is_blank("  a "));
}

fn pages_renderer(hits_per_page: Vec<usize>) -> (Renderer<(), Vec<usize>>, u32) {
    let mut r: Renderer<(), Vec<usize>> = Renderer::new(());
    let n = hits_per_page.len() as u16;
    let (key, _) = r.open(Ok((hits_per_page, n)), false).ok().unwrap();
    (r, key)
}

fn count(d: &Vec<usize>) -> u16 {
    d.len() as u16
}

fn find(d: &Vec<usize>, page: u16, _q: &str, _c: bool, _w: bool) -> Result<Vec<Vec<u32>>, RenderError> {
    Ok((0..d[page as usize]).map(|i| vec![page as u32, i as u32]).collect())
}

#[test]
fn search_collects_matches_in_page_order() {
    let (r, key) = pages_renderer(vec![2, 0, 1]);
    let res = r.search(key, "Corpus 01", false, false, count, find).ok().unwrap();
    assert!(!res.truncated);
    let pages: Vec<u16> = res.hits.iter().map(|h| h.page_index).collect();
    assert_eq!(pages, vec![0, 0, 2]);
    assert_eq!(res.hits[1].rects, vec![0, 1]);
}

#[test]
fn search_stops_at_the_limit() {
    let (r, key) = pages_renderer(vec![300, 300, 300]);
    let res = r.search(key, "x", false, false, count, find).ok().unwrap();
    assert!(res.truncated);
    assert_eq!(res.hits.len(), MAX_SEARCH_HITS);
    assert_eq!(res.hits[MAX_SEARCH_HITS - 1].page_index, 1);
    // exactly the limit, with nothing left, is not truncated
    let (r, key) = pages_renderer(vec![250, 250, 0]);
    let res = r.search(key, "x", false, false, count, find).ok().unwrap();
    assert!(!res.truncated);
    assert_eq!(res.hits.len(), MAX_SEARCH_HITS);
    // a match left on a later page is
    let (r, key) = pages_renderer(vec![500, 0, 1]);
    let res = r.search(key, "x", false, false, count, find).ok().unwrap();
    assert!(res.truncated);
    assert_eq!(res.hits.len(), MAX_SEARCH_HITS);
}

#[test]
fn search_with_a_blank_query_or_an_unknown_document() {
    let (r, key) = pages_renderer(vec![1]);
    let res = r.search(key + 5, "   ", true, true, count, find).ok().unwrap();
    assert!(res.hits.is_empty() && !res.truncated);
    assert!(matches!(r.search(key + 5, "a", true, true, count, find), Err(RenderError::UnknownDocument(_))));
}

#[test]
fn search_passes_page_failures_on() {
    let (r, key) = pages_renderer(vec![1, 1]);
    let failing = |d: &Vec<usize>, page: u16, q: &str, c: bool, w: bool| {
        if page == 1 { Err(RenderError::Pdfium("TextSearchError".to_string())) } else { find(d, page, q, c, w) }
    };
    assert!(matches!(r.search(key, "a", false, false, count, failing), Err(RenderError::Pdfium(_))));
}

#[test]
fn pushing_hits_marks_truncation() {
    let mut res: SearchResults<u8> = SearchResults::empty();
    assert!(!push_page_hits(&mut res, 0, vec![vec![1]; 499]));
    assert!(!res.truncated);
    assert!(push_page_hits(&mut res, 1, vec![vec![2], vec![3]]));
    assert!(res.truncated);
    assert_eq!(res.hits.len(), 500);
    assert_eq!(res.hits[499].rects, vec![2]);

    let mut full: SearchResults<u8> = SearchResults::empty();
    assert!(!push_page_hits(&mut full, 0, vec![vec![1]; 500]));
    assert!(!full.truncated);
    assert!(!push_page_hits(&mut full, 1, Vec::new()));
    assert!(push_page_hits(&mut full, 2, vec![vec![9]]));
    assert!(full.truncated);
    assert_eq!(full.hits.len(), 500);
}
