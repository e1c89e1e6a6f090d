use tui_renderer::border;
use tui_renderer::buffer::{Buffer, Rect};
use tui_renderer::effect::{Color, Effect, EffectType};
use unicode_width::UnicodeWidthStr;

fn block() -> Vec<String> {
    vec![
        "╭────────╮".to_string(),
        "│  \u{e7a8} あ  │".to_string(),
        "│        │".to_string(),
        "╰────────╯".to_string(),
    ]
}

fn no_styles(h: usize) -> Vec<Vec<Effect>> {
    (0..h).map(|_| vec![]).collect()
}

#[test]
fn buf_test() {
    let start = std::time::Instant::now();
    let mut buf = Buffer::new(100, 30);
    let w_buf = block();

    let rect1 = Rect::new(0, 0, 10, 4);
    let rect2 = Rect::new(10, 0, 10, 4);
    let rect3 = Rect::new(0, 4, 10, 4);
    let rect4 = Rect::new(10, 4, 10, 4);

    assert!(buf.push_rect_buffer(w_buf.clone(), no_styles(4), rect1));
    assert!(buf.push_rect_buffer(w_buf.clone(), no_styles(4), rect2));
    assert!(buf.push_rect_buffer(w_buf.clone(), no_styles(4), rect3));
    assert!(buf.push_rect_buffer(w_buf.clone(), no_styles(4), rect4));

    for l in &buf.get_buffer() {
        println!("\x1b[42m{}\x1b[m|  len : {}", l, UnicodeWidthStr::width(l.as_str()));
        assert_eq!(UnicodeWidthStr::width(l.as_str()), 100);
    }
    let text = buf.text_lines();
    assert_eq!(text[1], format!("{}{}{}", w_buf[1], w_buf[1], " ".repeat(80)));

    let end = start.elapsed();
    println!("run time : {}", end.as_micros() as f32 / 1000000.0)
}

#[test]
fn blank_buffer() {
    let buf = Buffer::new(5, 2);
    assert_eq!(buf.text_lines(), vec!["     ".to_string(), "     ".to_string()]);
    assert_eq!(buf.get_buffer(), vec!["     ".to_string(), "     ".to_string()]);
}

#[test]
fn widths_kept_after_composites() {
    let mut buf = Buffer::new(12, 3);
    assert!(buf.push_rect_buffer(vec!["あいうえ".to_string()], no_styles(1), Rect::new(1, 0, 8, 1)));
    assert!(buf.push_rect_buffer(vec!["xyz".to_string(), "abc".to_string()], no_styles(2), Rect::new(2, 0, 3, 2)));
    assert!(buf.push_rect_buffer(vec!["漢".to_string()], no_styles(1), Rect::new(7, 0, 2, 1)));
    for l in buf.text_lines() {
        assert_eq!(UnicodeWidthStr::width(l.as_str()), 12);
    }
}

#[test]
fn wide_char_cut_gets_padding() {
    let mut buf = Buffer::new(6, 1);
    assert!(buf.push_rect_buffer(vec!["あいう".to_string()], no_styles(1), Rect::new(0, 0, 6, 1)));
    // The left edge at column 1 splits "あ"; the right edge at column 2 is clean.
    assert!(buf.push_rect_buffer(vec!["x".to_string()], no_styles(1), Rect::new(1, 0, 1, 1)));
    assert_eq!(buf.text_lines(), vec![" xいう".to_string()]);
    // Both edges inside wide characters.
    let mut buf = Buffer::new(6, 1);
    assert!(buf.push_rect_buffer(vec!["あいう".to_string()], no_styles(1), Rect::new(0, 0, 6, 1)));
    assert!(buf.push_rect_buffer(vec!["ab".to_string()], no_styles(1), Rect::new(1, 0, 2, 1)));
    assert_eq!(buf.text_lines(), vec![" ab う".to_string()]);
}

#[test]
fn composite_keeps_outside_columns() {
    let mut buf = Buffer::new(10, 2);
    assert!(buf.push_rect_buffer(
        vec!["0123456789".to_string(), "abcdefghij".to_string()],
        no_styles(2),
        Rect::new(0, 0, 10, 2)
    ));
    assert!(buf.push_rect_buffer(vec!["XYZ".to_string()], no_styles(1), Rect::new(4, 1, 3, 1)));
    assert_eq!(buf.text_lines(), vec!["0123456789".to_string(), "abcdXYZhij".to_string()]);
}

#[test]
fn full_composite_of_own_lines_is_identity() {
    let mut buf = Buffer::new(8, 2);
    let rect = Rect::new(0, 0, 8, 2);
    let styles = rect.make_color_eff_vec(Some(Color::from_rgb(1, 2, 3)), None);
    assert!(buf.push_rect_buffer(vec!["ab あ cd".to_string(), "xyzw1234".to_string()], styles, rect));
    let lines = buf.text_lines();
    let flat = buf.get_buffer();
    let styles = rect.make_color_eff_vec(Some(Color::from_rgb(1, 2, 3)), None);
    assert!(buf.push_rect_buffer(lines.clone(), styles, rect));
    assert_eq!(buf.text_lines(), lines);
    assert_eq!(buf.get_buffer(), flat);
}

#[test]
fn color_bracket_flattens_around_area() {
    let mut buf = Buffer::new(10, 2);
    let rect = Rect::new(2, 0, 3, 2);
    let styles = rect.make_color_eff_vec(Some(Color::from_rgb(1, 2, 3)), Some(Color::from_rgb_8bit(0, 0, 0)));
    assert!(buf.push_rect_buffer(vec!["abc".to_string(), "def".to_string()], styles, rect));
    let out = buf.get_buffer();
    assert_eq!(out[0], "  \x1b[0m\x1b[38;2;1;2;3m\x1b[48;5;16mabc\x1b[0m     ");
    assert_eq!(out[1], "  \x1b[0m\x1b[38;2;1;2;3m\x1b[48;5;16mdef\x1b[0m     ");
}

#[test]
fn styles_spliced_across_area() {
    let mut buf = Buffer::new(10, 1);
    let whole = Rect::new(0, 0, 10, 1);
    assert!(buf.push_rect_buffer(vec!["abcdefghij".to_string()], vec![vec![Effect::bold(0), Effect::italic(6)]], whole));
    assert!(buf.push_rect_buffer(vec!["XY".to_string()], vec![vec![Effect::reset(0), Effect::reset(2)]], Rect::new(3, 0, 2, 1)));
    // bold@0 stays; the block's own resets come at 3 and 5; with no reset left of the
    // block's end, the old directives follow, moved up to column 5.
    assert_eq!(
        buf.get_buffer()[0],
        "\x1b[1mabc\x1b[0mXY\x1b[0m\x1b[1mf\x1b[3mghij"
    );
}

#[test]
fn directives_before_area_are_kept() {
    let mut buf = Buffer::new(10, 1);
    let whole = Rect::new(0, 0, 10, 1);
    assert!(buf.push_rect_buffer(
        vec!["abcdefghij".to_string()],
        vec![vec![Effect::reset(0), Effect::bold(0), Effect::reset(2)]],
        whole
    ));
    assert!(buf.push_rect_buffer(vec!["XY".to_string()], vec![vec![]], Rect::new(6, 0, 2, 1)));
    assert_eq!(buf.get_buffer()[0], "\x1b[0m\x1b[1mab\x1b[0mcdefXYij");
}

#[test]
fn refused_blocks_leave_buffer_unchanged() {
    let mut buf = Buffer::new(6, 2);
    let before = buf.get_buffer();
    // Too wide for the area.
    assert!(!buf.push_rect_buffer(vec!["abcd".to_string()], no_styles(1), Rect::new(0, 0, 3, 1)));
    // Outside the grid.
    assert!(!buf.push_rect_buffer(vec!["abc".to_string()], no_styles(1), Rect::new(4, 0, 3, 1)));
    assert!(!buf.push_rect_buffer(vec!["abc".to_string()], no_styles(1), Rect::new(0, 2, 3, 1)));
    // Wrong number of lines.
    assert!(!buf.push_rect_buffer(vec![], no_styles(1), Rect::new(0, 0, 3, 1)));
    // Directives out of order or past the area.
    assert!(!buf.push_rect_buffer(vec!["abc".to_string()], vec![vec![Effect::bold(2), Effect::bold(1)]], Rect::new(0, 0, 3, 1)));
    assert!(!buf.push_rect_buffer(vec!["abc".to_string()], vec![vec![Effect::bold(4)]], Rect::new(0, 0, 3, 1)));
    assert_eq!(buf.get_buffer(), before);
}

#[test]
fn rect_helpers() {
    let r = Rect::new(1, 2, 4, 3);
    assert!(r.can_draw_border());
    assert!(!Rect::new(0, 0, 2, 5).can_draw_border());
    assert_eq!(r.make_bordered_rect(Some(border::single())), Rect::new(2, 3, 2, 1));
    assert_eq!(r.make_bordered_rect(None), r);
    assert_eq!(
        r.make_border_buf(Some(border::single_rounded())),
        vec!["╭──╮".to_string(), "│  │".to_string(), "╰──╯".to_string()]
    );
    assert_eq!(r.make_border_buf(None), vec!["    ".to_string(); 3]);
    assert_eq!(Rect::new(0, 0, 2, 2).make_border_buf(Some(border::double())), vec!["  ".to_string(); 2]);
    let styles = r.make_color_eff_vec(None, Some(Color::gray(1)));
    assert_eq!(styles.len(), 3);
    let kinds: Vec<EffectType> = styles[0].iter().map(|e| e.kind).collect();
    assert_eq!(kinds, vec![EffectType::Reset, EffectType::BackColor, EffectType::Reset]);
    assert_eq!(styles[0][2].pos, 4);
}

#[test]
fn row_directives_are_readable() {
    let mut buf = Buffer::new(6, 2);
    let rect = Rect::new(1, 1, 3, 1);
    let styles = rect.make_color_eff_vec(None, None);
    assert!(buf.push_rect_buffer(vec!["abc".to_string()], styles, rect));
    assert!(buf.row_effects(0).is_empty());
    let row = buf.row_effects(1);
    let got: Vec<(EffectType, usize)> = row.iter().map(|e| (e.kind, e.pos)).collect();
    assert_eq!(got, vec![(EffectType::Reset, 1), (EffectType::Reset, 4)]);
}
