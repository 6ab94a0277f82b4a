use marrow::image::ImageStore;
use marrow::image::get_mime_type;
use marrow::image::resolve_image_url;
use marrow::linemap::byte_offset_to_line;
use marrow::render::markdown_to_html;
use marrow::slug::slugify;
use marrow::text::html_escape;
use marrow::text::truncate_end;
use marrow::text::truncate_middle;
use marrow::toc::build_toc_html;
use marrow::toc::extract_toc;
use base64::Engine;

#[test]
fn paragraph_carries_its_line_range() {
    let html = markdown_to_html("Hello **world**", None);
    assert_eq!(html, "<p data-lines=\"1-1\">Hello <strong>world</strong></p>\n");
}

#[test]
fn round_trip_single_paragraph() {
    // rendering, then slicing the source by the emitted data-lines range,
    // reproduces the original line
    let source = "Hello **world**";
    let html = markdown_to_html(source, None);
    let start = html.find("data-lines=\"").unwrap() + "data-lines=\"".len();
    let end = html[start..].find('"').unwrap() + start;
    let range = &html[start..end];
    let (a, b) = range.split_once('-').unwrap();
    let a: usize = a.parse().unwrap();
    let b: usize = b.parse().unwrap();
    let lines: Vec<&str> = source.lines().collect();
    let sliced = lines[a - 1..b].join("\n");
    assert_eq!(sliced, "Hello **world**");
}

#[test]
fn heading_gets_anchor_and_range() {
    let html = markdown_to_html("# Title", None);
    assert_eq!(html, "<h1 id=\"title\" data-lines=\"1-1\">Title</h1>\n");
}

#[test]
fn heading_slug_includes_code_spans() {
    let html = markdown_to_html("## Use `map` now", None);
    assert!(html.contains("<h2 id=\"use-map-now\" data-lines=\"1-1\">"));
    assert!(html.contains("Use <code>map</code> now</h2>"));
}

#[test]
fn blockquote_end_line_is_backpatched() {
    let html = markdown_to_html("> one\n> two", None);
    assert!(html.starts_with("<blockquote data-lines=\"1-2\">"));
    assert!(html.ends_with("</blockquote>\n"));
    assert!(!html.contains("__BQ_END__"));
}

#[test]
fn list_items_carry_their_lines() {
    let html = markdown_to_html("- a\n- b", None);
    assert!(html.contains("<ul data-lines=\"1-2\">"));
    assert!(html.contains("<li data-lines=\"1-"));
    assert!(html.contains(">a</li>"));
    assert!(html.contains("<li data-lines=\"2-2\">b</li>"));
    assert!(html.contains("</ul>"));
}

#[test]
fn ordered_list_uses_ol() {
    let html = markdown_to_html("1. a\n2. b", None);
    assert!(html.contains("<ol data-lines=\"1-2\">"));
    assert!(html.contains("</ol>"));
}

#[test]
fn fenced_code_includes_closing_fence_line() {
    let html = markdown_to_html("```\nx\n```", None);
    // the closing fence itself belongs to the block's copyable text
    assert!(html.contains("<pre data-lines=\"1-4\"><code>"));
    assert!(html.contains("</code></pre>\n"));
}

#[test]
fn fenced_code_with_language() {
    let html = markdown_to_html("```rust\nlet x = 1;\n```", None);
    assert!(html.contains("<code class=\"language-rust\">"));
    assert!(html.contains("let x = 1;"));
}

#[test]
fn math_block_renders_for_katex() {
    let html = markdown_to_html("```math\nx^2\n```", None);
    assert!(html.contains("<div class=\"math-block\" data-lines=\"1-"));
    assert!(html.contains("$$"));
    assert!(html.contains("$$</div>\n"));
    assert!(!html.contains("__MATH_END__"));
}

#[test]
fn table_header_cells_use_th() {
    let html = markdown_to_html("| a |\n|---|\n| b |", None);
    assert!(html.contains("<table data-lines=\"1-3\">"));
    assert!(html.contains("<thead><tr><th>a</th></tr></thead>"));
    assert!(html.contains("<td>b</td>"));
}

#[test]
fn rule_is_emitted_with_range() {
    let html = markdown_to_html("---", None);
    assert_eq!(html, "<hr data-lines=\"1-1\" />");
}

#[test]
fn text_is_escaped() {
    let html = markdown_to_html("a < b & c", None);
    assert!(html.contains("a &lt; b &amp; c"));
}

#[test]
fn link_with_title() {
    let html = markdown_to_html("[x](http://e.com \"T\")", None);
    assert!(html.contains("<a href=\"http://e.com\" title=\"T\">x</a>"));
}

#[test]
fn hard_break_renders() {
    let html = markdown_to_html("a\\\nb", None);
    assert!(html.contains("<br />\n"));
}

#[test]
fn task_list_markers_render() {
    let html = markdown_to_html("- [x] done\n- [ ] todo", None);
    assert!(html.contains("<input type=\"checkbox\" checked disabled /> "));
    assert!(html.contains("<input type=\"checkbox\" disabled /> "));
}

#[test]
fn image_reference_resolves_from_store() {
    let bytes = vec![137u8, 80, 78, 71, 13, 10, 26, 10];
    let expected = base64::engine::general_purpose::STANDARD.encode(&bytes);
    let mut store = ImageStore::new();
    store.insert("./fig.png".to_string(), bytes);
    let html = markdown_to_html("![x](./fig.png)", Some(&store));
    let wanted = format!("data:image/png;base64,{}", expected);
    assert!(html.contains(&wanted), "got: {}", html);
}

#[test]
fn image_reference_unresolved_without_base() {
    let html = markdown_to_html("![x](./fig.png)", None);
    assert!(html.contains("<img src=\"./fig.png\" alt=\"x\" />"));
}

#[test]
fn resolve_image_url_with_and_without_store() {
    let bytes = vec![1u8, 2, 3];
    let expected = base64::engine::general_purpose::STANDARD.encode(&bytes);
    let mut store = ImageStore::new();
    store.insert("./fig.png".to_string(), bytes);
    let resolved = resolve_image_url("./fig.png", Some(&store));
    assert_eq!(resolved, format!("data:image/png;base64,{}", expected));
    let unresolved = resolve_image_url("./fig.png", None);
    assert_eq!(unresolved, "./fig.png");
}

#[test]
fn resolve_image_url_passes_absolute_through() {
    let store = ImageStore::new();
    assert_eq!(
        resolve_image_url("https://e.com/a.png", Some(&store)),
        "https://e.com/a.png"
    );
    assert_eq!(resolve_image_url("data:image/png;base64,AA==", None), "data:image/png;base64,AA==");
    assert_eq!(resolve_image_url("file:///tmp/x.png", None), "file:///tmp/x.png");
}

#[test]
fn mime_types_follow_the_fixed_table() {
    assert_eq!(get_mime_type("a/b.png"), "image/png");
    assert_eq!(get_mime_type("photo.JPG"), "image/jpeg");
    assert_eq!(get_mime_type("x.jpeg"), "image/jpeg");
    assert_eq!(get_mime_type("anim.gif"), "image/gif");
    assert_eq!(get_mime_type("v.svg"), "image/svg+xml");
    assert_eq!(get_mime_type("w.webp"), "image/webp");
    assert_eq!(get_mime_type("i.ico"), "image/x-icon");
    assert_eq!(get_mime_type("b.bmp"), "image/bmp");
    assert_eq!(get_mime_type("noext"), "application/octet-stream");
    assert_eq!(get_mime_type(".hidden"), "application/octet-stream");
    assert_eq!(get_mime_type("odd.xyz"), "application/octet-stream");
}

#[test]
fn slugify_examples() {
    assert_eq!(slugify("Hello World!"), "hello-world");
    assert_eq!(slugify("  --a--b--  "), "a-b");
    assert_eq!(slugify(""), "");
    assert_eq!(slugify("API v2.0"), "api-v2-0");
    assert_eq!(slugify("Use `map` now"), "use-map-now");
    // every character outside ASCII letters and digits is a separator
    assert_eq!(slugify("Café"), "caf");
    assert_eq!(slugify("naïve idea"), "na-ve-idea");
}

#[test]
fn slugify_has_no_edge_or_doubled_separators() {
    for text in ["!!a!!b!!", "  spaced  out  ", "___", "Mixed CASE here", "tail-", "Café au lait"]
    {
        let s = slugify(text);
        assert!(!s.starts_with('-'), "leading separator in {:?}", s);
        assert!(!s.ends_with('-'), "trailing separator in {:?}", s);
        assert!(!s.contains("--"), "doubled separator in {:?}", s);
        assert!(s.chars().all(|c| c.is_ascii_lowercase() || c.is_ascii_digit() || c == '-'));
    }
}

#[test]
fn toc_collects_levels_and_text() {
    let toc = extract_toc("# One\n\ntext\n\n## Two `x`\n\n### Three");
    assert_eq!(
        toc,
        vec![
            (1usize, "One".to_string()),
            (2, "Two x".to_string()),
            (3, "Three".to_string())
        ]
    );
}

#[test]
fn toc_drops_empty_headings() {
    let toc = extract_toc("#\n\n# Real");
    assert_eq!(toc, vec![(1usize, "Real".to_string())]);
}

#[test]
fn toc_html_links_to_slugs() {
    let toc = vec![(2usize, "My Title".to_string())];
    let html = build_toc_html(&toc);
    assert_eq!(
        html,
        "<a href=\"#\" onclick=\"scrollToHeading('my-title'); return false;\" class=\"toc-item toc-level-2\">My Title</a>"
    );
}

#[test]
fn byte_offsets_map_to_lines() {
    let src = "a\nb\nc";
    assert_eq!(byte_offset_to_line(src, 0), 1);
    assert_eq!(byte_offset_to_line(src, 1), 1);
    assert_eq!(byte_offset_to_line(src, 2), 2);
    assert_eq!(byte_offset_to_line(src, 4), 3);
    assert_eq!(byte_offset_to_line(src, 100), 3);
    assert_eq!(byte_offset_to_line("", 0), 1);
}

#[test]
fn html_escape_covers_the_four_specials() {
    assert_eq!(html_escape("<a> & \"q\""), "&lt;a&gt; &amp; &quot;q&quot;");
    assert_eq!(html_escape("plain"), "plain");
}

#[test]
fn truncate_end_keeps_short_strings() {
    assert_eq!(truncate_end("short", 20), "short");
    assert_eq!(truncate_end("hello", 3), "he\u{2026}");
}

#[test]
fn truncate_middle_keeps_both_ends() {
    assert_eq!(truncate_middle("abcdefgh", 5), "ab\u{2026}gh");
    assert_eq!(truncate_middle("tiny", 10), "tiny");
}

#[test]
fn empty_source_renders_empty() {
    assert_eq!(markdown_to_html("", None), "");
}

#[test]
fn all_block_ranges_lie_within_the_source() {
    // every data-lines attribute stays within [1, lines + 1]
    let source = "# H\n\npara one\n\n> quote\n\n- a\n- b\n\n```\ncode\n```\n\nlast";
    let total = source.lines().count();
    let html = markdown_to_html(source, None);
    let mut rest = html.as_str();
    while let Some(p) = rest.find("data-lines=\"") {
        rest = &rest[p + "data-lines=\"".len()..];
        let q = rest.find('"').unwrap();
        let (a, b) = rest[..q].split_once('-').unwrap();
        let a: usize = a.parse().unwrap();
        let b: usize = b.parse().unwrap();
        assert!(1 <= a && a <= b && b <= total + 1, "range {}-{} outside 1..{}", a, b, total);
        rest = &rest[q..];
    }
}

#[test]
fn byte_offsets_handle_multibyte_text() {
    // "é" is two bytes; offsets are byte positions
    let src = "é\nb";
    assert_eq!(byte_offset_to_line(src, 0), 1);
    assert_eq!(byte_offset_to_line(src, 2), 1);
    assert_eq!(byte_offset_to_line(src, 3), 2);
}

#[test]
fn non_ascii_headings_render_with_ranges() {
    let html = markdown_to_html("# Héllo wörld\n\nBödy", None);
    assert!(html.contains("<h1 id=\"h-llo-w-rld\" data-lines=\"1-"));
    assert!(html.contains("<p data-lines=\"3-3\">Bödy</p>"));
}
