use nuber::book::{chapter_text, highlight_query, locate, search_chapter};
use nuber::deunicode::{Deunicode, Range};
use nuber::image::{ceil, fit_image, placeholder, Image, TermSize};
use nuber::parser::{Annotation, Converter, Decorator, ImageProbe, RichConverter, Run};
use nuber::style::{Effect, Style};

fn term(row: u16, col: u16, x: u16, y: u16) -> TermSize {
    TermSize { row, col, x, y }
}

#[test]
fn accented_text_matches_plain_query() {
    let d = Deunicode::from("café");
    let r = d.match_indices(|s: &str| s.to_lowercase(), "cafe");
    assert_eq!(r, vec![Range { start: 0, end: 4 }]);
}

#[test]
fn uppercase_query_matches_after_lowercasing() {
    let d = Deunicode::from("Le Café est ouvert");
    let r = d.match_indices(|s: &str| s.to_lowercase(), "CAFE");
    assert_eq!(r, vec![Range { start: 3, end: 7 }]);
}

#[test]
fn matches_do_not_overlap() {
    let d = Deunicode::from("aaaa ");
    let r = d.match_indices(|s: &str| s.to_lowercase(), "aa");
    assert_eq!(r, vec![Range { start: 0, end: 2 }, Range { start: 2, end: 4 }]);
}

#[test]
fn multi_letter_folding_maps_back() {
    // "Æ" folds to "AE": both folded letters belong to index 1.
    let d = Deunicode::from("xÆy");
    assert_eq!(d.deunicoded(), "xAEy");
    assert_eq!(d.convert_offset(0), Some(0));
    assert_eq!(d.convert_offset(1), Some(1));
    assert_eq!(d.convert_offset(2), Some(1));
    assert_eq!(d.convert_offset(3), Some(2));
    assert_eq!(d.convert_offset(4), None);
    let r = d.match_indices(|s: &str| s.to_lowercase(), "ae");
    assert_eq!(r, vec![Range { start: 1, end: 2 }]);
}

#[test]
fn round_trip_of_last_folded_position() {
    let d = Deunicode::from("aÆb");
    // offsets are 1, 2, 1: the last folded position of each character
    // maps back to it.
    assert_eq!(d.convert_offset(0), Some(0));
    assert_eq!(d.convert_offset(2), Some(1));
    assert_eq!(d.convert_offset(3), Some(2));
}

#[test]
fn highlight_three_lines() {
    let lens = vec![10usize, 8, 12];
    let h = locate(&lens, Range { start: 9, end: 14 });
    assert_eq!(h.anchor, (0, 9));
    assert_eq!(h.spans, vec![1, 4]);
}

#[test]
fn highlight_spans_add_up() {
    let lens = vec![5usize, 3, 4, 6];
    let h = locate(&lens, Range { start: 3, end: 14 });
    assert_eq!(h.anchor, (0, 3));
    assert_eq!(h.spans, vec![2, 3, 4, 2]);
    assert_eq!(h.spans.iter().sum::<usize>(), 11);
}

#[test]
fn highlight_on_one_line_pushes_zero_on_next() {
    let lens = vec![10usize, 8];
    let h = locate(&lens, Range { start: 12, end: 14 });
    assert_eq!(h.anchor, (1, 2));
    assert_eq!(h.spans, vec![2]);
    let h2 = locate(&lens, Range { start: 2, end: 4 });
    assert_eq!(h2.anchor, (0, 2));
    assert_eq!(h2.spans, vec![2, 0]);
}

#[test]
fn highlight_truncated_at_last_line() {
    let lens = vec![4usize, 3];
    let h = locate(&lens, Range { start: 2, end: 20 });
    assert_eq!(h.anchor, (0, 2));
    assert_eq!(h.spans, vec![2, 3]);
}

#[test]
fn image_fit_scenario() {
    let t = term(40, 100, 10, 20);
    assert_eq!(fit_image(800, 400, t), (100, 10));
}

#[test]
fn image_fit_small_image_keeps_size() {
    let t = term(40, 100, 10, 20);
    // 50 px wide: 500 / 10 = 50 columns; 60 px high: 2400 / 20 = 120 rows.
    assert_eq!(fit_image(5, 60, t), (50, 120));
}

#[test]
fn image_fit_never_wider_than_terminal() {
    let t = term(24, 80, 8, 16);
    for (w, h) in [(1u32, 1u32), (10, 1000), (100000, 3), (640, 480), (u32::MAX, u32::MAX)] {
        let (c, _) = fit_image(w, h, t);
        assert!(c <= 80);
    }
}

#[test]
fn image_fit_degenerate_geometry() {
    assert_eq!(fit_image(800, 400, term(0, 0, 0, 0)), (0, 0));
    assert_eq!(fit_image(0, 0, term(40, 100, 10, 20)), (0, 0));
}

#[test]
fn ceil_values() {
    assert_eq!(ceil(7, 2), 4);
    assert_eq!(ceil(8, 2), 4);
    assert_eq!(ceil(0, 3), 0);
    assert_eq!(ceil(5, 0), 0);
}

#[test]
fn placeholder_grid() {
    assert_eq!(placeholder(3, 1, 10), "SII");
    assert_eq!(placeholder(2, 2, 4), "SINNIINN");
    assert_eq!(placeholder(0, 0, 10), "S");
    assert_eq!(placeholder(2, 3, 3), "SINIINIIN");
}

#[test]
fn style_merge_is_a_union() {
    let a = Style::from(Effect::Bold);
    let b = Style::from(Effect::Italic);
    let m1 = Style::merge(&[a, b, a]);
    let m2 = Style::merge(&[b, a]);
    assert_eq!(m1, m2);
    assert!(m1.bold && m1.italic && !m1.underline);
    assert_eq!(Style::merge(&[m1, m1]), m1);
    assert_eq!(Style::merge(&[]), Style::none());
    assert_eq!(Style::default(), Style::none());
}

#[test]
fn converter_table() {
    let c = RichConverter;
    let link = Annotation::Link("u".to_string());
    let img = Annotation::Image("p.png".to_string());
    assert_eq!(c.get_style(&Annotation::Default), None);
    assert_eq!(c.get_style(&Annotation::Code), None);
    assert_eq!(c.get_style(&Annotation::Preformat(true)), None);
    assert_eq!(c.get_style(&Annotation::Header(2)), Some(Style::from(Effect::Bold)));
    assert_eq!(c.get_style(&Annotation::Emphasis), Some(Style::from(Effect::Italic)));
    assert_eq!(c.get_style(&Annotation::Strong), Some(Style::from(Effect::Bold)));
    assert_eq!(c.get_style(&Annotation::Strikeout), Some(Style::from(Effect::Strikethrough)));
    assert_eq!(c.get_style(&link), Some(Style::from(Effect::Underline)));
    assert_eq!(c.get_style(&img), Some(Style::from(Effect::Image)));
    assert_eq!(c.get_link(&link), Some("u".to_string()));
    assert_eq!(c.get_link(&img), Some("p.png".to_string()));
    assert_eq!(c.get_link(&Annotation::Strong), None);
}

#[test]
fn image_new_is_empty() {
    let i = Image::new("a/b.png");
    assert_eq!(i.size, (0, 0));
    assert_eq!(i.path, "a/b.png");
    assert_eq!(i.id, "");
}

fn probe(w: u32, h: u32) -> Option<ImageProbe> {
    Some(ImageProbe { width_px: w, height_px: h, path: "/tmp/x/p.png".to_string() })
}

#[test]
fn image_info_only_for_image_annotations() {
    let d = Decorator::new("/tmp/x".to_string(), term(40, 100, 10, 20));
    let img = Annotation::Image("p.png".to_string());
    let i = d.get_image_info(&img, &probe(800, 400)).unwrap();
    assert_eq!(i.size, (100, 10));
    assert_eq!(i.path, "/tmp/x/p.png");
    assert!(d.get_image_info(&Annotation::Strong, &probe(800, 400)).is_none());
    assert!(d.get_image_info(&img, &None).is_none());
    assert_eq!(d.get_image_dimensions(&None), (0, 0));
    assert_eq!(d.image_placeholder(&None), "S");
}

fn sample_lines() -> Vec<Vec<Run>> {
    vec![
        vec![
            Run {
                text: "bold link".to_string(),
                tags: vec![Annotation::Strong, Annotation::Link("a.html".to_string())],
                probes: vec![None, None],
            },
            Run { text: " plain".to_string(), tags: vec![], probes: vec![] },
        ],
        vec![Run {
            text: "SII".to_string(),
            tags: vec![Annotation::Image("p.png".to_string())],
            probes: vec![probe(30, 20)],
        }],
    ]
}

#[test]
fn assemble_runs_into_elements() {
    let d = Decorator::new("/tmp/x".to_string(), term(40, 100, 10, 20));
    let doc = d.assemble(&sample_lines());
    assert_eq!(doc.len(), 2);
    assert_eq!(doc[0].len(), 2);
    let e = &doc[0][0];
    assert_eq!(e.text, "bold link");
    assert!(e.style.bold && e.style.underline && !e.style.italic);
    assert_eq!(e.target, Some("a.html".to_string()));
    assert!(e.image_info.is_none());
    assert_eq!(doc[0][1].style, Style::none());
    assert_eq!(doc[0][1].target, None);
    let im = doc[1][0].image_info.as_ref().unwrap();
    assert_eq!(im.size, (100, 14));
    assert!(doc[1][0].style.image);
    assert_eq!(doc[1][0].target, Some("p.png".to_string()));
}

#[test]
fn assemble_twice_gives_same_elements() {
    let d = Decorator::new("/tmp/x".to_string(), term(40, 100, 10, 20));
    let a = d.assemble(&sample_lines());
    let b = d.assemble(&sample_lines());
    assert_eq!(format!("{:?}", a), format!("{:?}", b));
}

#[test]
fn chapter_text_trims_and_separates() {
    let lines = vec![
        vec!["Hello ".to_string(), "world  ".to_string()],
        vec!["x".to_string()],
        vec!["   ".to_string()],
    ];
    let (text, lens) = chapter_text(&lines);
    assert_eq!(text, "Hello world x  ");
    assert_eq!(lens, vec![12, 2, 1]);
}

#[test]
fn search_without_matches_is_empty() {
    let lines = vec![vec!["nothing here".to_string()]];
    assert!(search_chapter(&lines, "absent").is_empty());
}

#[test]
fn search_across_lines() {
    let lines = vec![vec!["le café".to_string()], vec!["noir du matin".to_string()]];
    let hs = search_chapter(&lines, "Cafe noir");
    assert_eq!(hs.len(), 1);
    assert_eq!(hs[0].anchor, (0, 3));
    assert_eq!(hs[0].spans, vec![5, 4]);
}

#[test]
fn highlight_query_on_flat_text() {
    let text = "ab ab ";
    let lens = vec![3usize, 3];
    let hs = highlight_query(text, &lens, "AB");
    assert_eq!(hs.len(), 2);
    assert_eq!(hs[0].anchor, (0, 0));
    assert_eq!(hs[1].anchor, (1, 0));
    assert_eq!(hs[1].spans, vec![2]);
}

#[test]
fn empty_query_matches_between_characters() {
    let d = Deunicode::from("ab ");
    let r = d.match_indices(|s: &str| s.to_lowercase(), "");
    assert_eq!(
        r,
        vec![Range { start: 0, end: 0 }, Range { start: 1, end: 1 }, Range { start: 2, end: 2 }]
    );
}

#[test]
fn unmappable_characters_fold_to_nothing() {
    let d = Deunicode::from("a\u{e000}b");
    assert_eq!(d.deunicoded(), "ab");
    assert_eq!(d.convert_offset(1), Some(2));
}
