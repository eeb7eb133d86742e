use semdoc::chunker::{
    chunk_for, chunk_markdown, chunk_markdown_with, chunk_plain, chunk_plain_with,
    resolve_chunk_overlap, resolve_chunk_size, Chunk,
};
use semdoc::hash::content_hash;

#[test]
fn chunk_id_is_deterministic() {
    let a = Chunk::compute_id("parent", 0, "hello");
    let b = Chunk::compute_id("parent", 0, "hello");
    assert_eq!(a, b);
}

#[test]
fn chunk_id_changes_with_index() {
    let a = Chunk::compute_id("parent", 0, "hello");
    let b = Chunk::compute_id("parent", 1, "hello");
    assert_ne!(a, b);
}

#[test]
fn chunk_id_changes_with_parent() {
    let a = Chunk::compute_id("parent-a", 0, "hello");
    let b = Chunk::compute_id("parent-b", 0, "hello");
    assert_ne!(a, b);
}

#[test]
fn chunk_id_pads_the_index() {
    assert_eq!(Chunk::compute_id("p", 7, "t"), content_hash("p:0000000007:t"));
    assert_eq!(Chunk::compute_id("p", u32::MAX, "t"), content_hash("p:4294967295:t"));
}

#[test]
fn chunk_ids_of_nested_names_can_meet() {
    // A parent that continues another with a colon and an index writes the
    // same input.
    assert_eq!(
        Chunk::compute_id("a", 1, "0000000002:x"),
        Chunk::compute_id("a:0000000001", 2, "x")
    );
}

#[test]
fn chunk_ids_of_other_nested_names_differ() {
    let ids = [
        Chunk::compute_id("a", 1, "b:x"),
        Chunk::compute_id("a:b", 1, "x"),
        Chunk::compute_id("a:1", 1, "x"),
        Chunk::compute_id("a:00000000010", 1, "x"),
    ];
    for i in 0..ids.len() {
        for j in 0..i {
            assert_ne!(ids[i], ids[j]);
        }
    }
}

#[test]
fn chunk_ids_of_a_document_differ() {
    let chunks = chunk_plain_with(&"same words ".repeat(40), "p", 64, 0);
    assert!(chunks.len() > 5);
    for (i, c) in chunks.iter().enumerate() {
        assert!(chunks[..i].iter().all(|d| d.chunk_id != c.chunk_id));
    }
}

#[test]
fn chunk_ids_are_lower_hex() {
    let id = Chunk::compute_id("parent", 0, "hello");
    assert_eq!(id.len(), 64);
    assert!(id.chars().all(|c| matches!(c, '0'..='9' | 'a'..='f')));
}

#[test]
fn content_hash_is_blake3() {
    assert_eq!(
        content_hash(""),
        "af1349b9f5f9a1a6a0404dea36dcc9499bcb25c9adc112b7cc9a93cae41f3262"
    );
    assert_eq!(
        content_hash("abc"),
        "6437b3ac38465133ffb63b75273a8db548c558465d79db03fd359c6cd5bd9d85"
    );
}

#[test]
fn short_text_stays_one_chunk_plain() {
    let chunks = chunk_plain("hello world", "p1");
    assert_eq!(chunks.len(), 1);
    assert_eq!(chunks[0].text, "hello world");
    assert_eq!(chunks[0].chunk_index, 0);
}

#[test]
fn empty_text_produces_no_chunks() {
    let chunks = chunk_plain("", "p1");
    assert!(chunks.is_empty());
}

#[test]
fn whitespace_only_produces_no_chunks() {
    let chunks = chunk_plain("   \n\n  \t  ", "p1");
    assert!(chunks.is_empty());
}

#[test]
fn long_text_splits_with_overlap() {
    // 2000 chars of 'a' should produce ≥3 chunks of 512 with 50 overlap.
    let text: String = "a".repeat(2000);
    let chunks = chunk_plain(&text, "p1");
    assert!(chunks.len() >= 3, "expected >= 3 chunks, got {}", chunks.len());
    for c in &chunks {
        assert!(c.text.chars().count() <= 512);
    }
}

#[test]
fn markdown_sections_split_on_h2() {
    // Sections shorter than the coalesce threshold get merged into the
    // next section, so each section body here must exceed it (~170 chars)
    // to stand alone.
    let fill = |s: &str| format!("{} {}", s, "word ".repeat(40));
    let md = format!(
        "# Title\n\n{}\n\n## Section A\n\n{}\n\n## Section B\n\n{}",
        fill("preamble"),
        fill("content A"),
        fill("content B")
    );
    let chunks = chunk_markdown(&md, "p1");
    // Title + preamble → 1 chunk; Section A → 1; Section B → 1.
    assert_eq!(chunks.len(), 3, "got chunks: {:?}", chunks);
    assert!(chunks[0].text.contains("preamble"));
    assert!(chunks[0].text.contains("# Title"));
    assert!(chunks[1].text.contains("Section A"));
    assert!(chunks[2].text.contains("Section B"));
}

#[test]
fn markdown_short_sections_coalesce_into_next() {
    // Short sections are merged forward rather than emitted as tiny
    // chunks (the "1-line header is its own chunk" failure mode).
    let md = "# Title\n\npreamble\n\n## A\n\nshort A\n\n## B\n\nshort B";
    let chunks = chunk_markdown(md, "p1");
    assert_eq!(chunks.len(), 1, "got chunks: {:?}", chunks);
    assert!(chunks[0].text.contains("short A"));
    assert!(chunks[0].text.contains("short B"));
}

#[test]
fn markdown_h1_is_not_a_split_point() {
    let md = "# A\n\n# B\n\nbody";
    let chunks = chunk_markdown(md, "p1");
    // Both h1s stay together — they're not split points.
    assert_eq!(chunks.len(), 1);
    assert!(chunks[0].text.contains("# A"));
    assert!(chunks[0].text.contains("# B"));
}

#[test]
fn long_markdown_section_gets_recursive_split() {
    // Build a section with a 1500-char body that should split into
    // ~3 chunks.
    let body: String = "x".repeat(1500);
    let md = format!("## Long\n\n{body}");
    let chunks = chunk_markdown(&md, "p1");
    assert!(chunks.len() >= 2, "expected >= 2 chunks, got {}", chunks.len());
    // Each chunk's text should include the header (overlap behavior).
}

#[test]
fn chunk_for_dispatches_on_extension() {
    let plain_chunks = chunk_for("hello world", "p1", None, "/tmp/foo.txt", None, None);
    assert_eq!(plain_chunks.len(), 1);

    let md_chunks = chunk_for("# H\n\nbody", "p1", None, "/tmp/foo.md", None, None);
    assert_eq!(md_chunks.len(), 1);
}

#[test]
fn chunk_for_dispatches_on_language_hint() {
    let chunks = chunk_for("hello world", "p1", Some("markdown"), "/tmp/foo.txt", None, None);
    // markdown path with plain text → 1 chunk (no headers to split on).
    assert_eq!(chunks.len(), 1);
}

#[test]
fn windows_cover_the_text_and_overlap() {
    let text: String = (0..300u32).map(|i| char::from(b'a' + (i % 26) as u8)).collect();
    let chunks = chunk_plain_with(&text, "p", 100, 20);
    assert!(chunks.len() >= 3);
    for (i, c) in chunks.iter().enumerate() {
        assert!(c.text.chars().count() <= 100);
        assert!(text.contains(c.text.as_str()));
        assert_eq!(c.chunk_index as usize, i);
        assert_eq!(c.parent_doc_id, "p");
        assert_eq!(c.chunk_id, Chunk::compute_id("p", i as u32, &c.text));
    }
    assert!(text.starts_with(chunks[0].text.as_str()));
    assert!(text.ends_with(chunks[chunks.len() - 1].text.as_str()));
    for w in chunks.windows(2) {
        let tail: String = w[0].text.chars().skip(80).collect();
        assert!(w[1].text.starts_with(tail.as_str()));
    }
}

#[test]
fn paragraphs_that_fit_are_packed() {
    let chunks = chunk_plain_with("one\n\ntwo\n\nthree", "p", 64, 0);
    assert_eq!(chunks.len(), 1);
    assert_eq!(chunks[0].text, "one\n\ntwo\n\nthree");
}

#[test]
fn packed_paragraphs_begin_with_the_end_of_the_one_before() {
    let a = "a".repeat(60);
    let b = "b".repeat(60);
    let chunks = chunk_plain_with(&format!("{a}\n\n{b}"), "p", 64, 10);
    assert_eq!(chunks.len(), 2);
    assert_eq!(chunks[0].text, a);
    assert!(chunks[1].text.starts_with("aaaaaaaaaa"));
    assert!(chunks[1].text.ends_with(b.as_str()));
}

fn texts(text: &str, size: usize, overlap: usize) -> Vec<String> {
    chunk_plain_with(text, "p", size, overlap).into_iter().map(|c| c.text).collect()
}

#[test]
fn long_paragraphs_are_split_at_line_ends_and_spaces() {
    assert_eq!(texts("aaa bbb", 5, 0), vec!["aaa", "bbb"]);
    assert_eq!(texts("aaa\nbbb ccc", 5, 0), vec!["aaa", "bbb", "ccc"]);
    assert_eq!(texts("aaa\nbb c\ndd", 7, 0), vec!["aaa", "bb c\ndd"]);
    assert_eq!(texts("aaaaaaaaaa bb", 4, 0), vec!["aaaa", "aaaa", "aa", "bb"]);
    assert_eq!(texts("aaa bbb ccc", 7, 2), vec!["aaa bbb", "bb ccc"]);
}

#[test]
fn blank_paragraphs_make_no_chunk_longer() {
    assert_eq!(texts("   \n\nabcd", 4, 0), vec!["abcd"]);
    for text in ["  \n\n \n\nabcd\n\n   \n\nefgh", "\n\n\n\nabcdefgh ij", " \n \n \n a b c d e f"] {
        for c in texts(text, 4, 0) {
            assert!(c.chars().count() <= 4, "{c:?}");
            assert!(!c.trim().is_empty());
        }
    }
}

#[test]
fn sections_begin_with_their_headings() {
    let body = "word ".repeat(20);
    let md = format!("## One\n\n{body}\n\n## Two\n\n{body}");
    let chunks = chunk_markdown_with(&md, "p", 128, 0);
    assert_eq!(chunks.len(), 2);
    assert!(chunks[0].text.starts_with("## One"));
    assert!(chunks[1].text.starts_with("## Two"));
}

#[test]
fn chunk_size_is_clamped() {
    assert_eq!(resolve_chunk_size(None), 512);
    assert_eq!(resolve_chunk_size(Some("oops")), 512);
    assert_eq!(resolve_chunk_size(Some("1")), 64);
    assert_eq!(resolve_chunk_size(Some("256")), 256);
    assert_eq!(resolve_chunk_size(Some("100000")), 8192);
}

#[test]
fn overlap_is_clamped() {
    assert_eq!(resolve_chunk_overlap(512, None), 50);
    assert_eq!(resolve_chunk_overlap(512, Some("10")), 10);
    assert_eq!(resolve_chunk_overlap(512, Some("400")), 256);
    assert_eq!(resolve_chunk_overlap(64, None), 32);
    assert_eq!(resolve_chunk_overlap(512, Some("-1")), 50);
}

#[test]
fn chunk_for_takes_the_settings() {
    let text = "a".repeat(300);
    assert_eq!(chunk_for(&text, "p", None, "x", None, None).len(), 1);
    assert!(chunk_for(&text, "p", None, "x", Some("100"), Some("0")).len() >= 3);
}
