use tui_renderer::border;
use tui_renderer::buffer::{Buffer, Rect};
use tui_renderer::effect::Color;
use tui_renderer::layout::{split_extent, Alignment, Constraint, SizeType};
use tui_renderer::widget::{Button, Horizontal, Vertical, Widget};
use unicode_width::UnicodeWidthStr;

#[test]
fn fixed_and_proportional_split() {
    let cons = vec![
        Constraint::constant(1),
        Constraint::percentage(100, 1000, 0).unwrap(),
        Constraint::constant(1),
    ];
    let aligns = vec![Alignment::Start, Alignment::Start, Alignment::End];
    assert_eq!(split_extent(&cons, &aligns, 20), vec![Some((0, 1)), Some((1, 18)), Some((19, 1))]);
}

#[test]
fn crossed_bounds_are_refused() {
    assert!(Constraint::percentage(100, 5, 10).is_none());
    assert!(Constraint::percentage(101, 10, 5).is_none());
    let c = Constraint::percentage(50, 10, 5).unwrap();
    assert_eq!(c.size_type, SizeType::Percentage);
    assert_eq!((c.size, c.min_length, c.max_length), (50, 5, 10));
}

#[test]
fn fixed_child_that_does_not_fit_is_dropped() {
    let cons = vec![Constraint::constant(5)];
    assert_eq!(split_extent(&cons, &vec![Alignment::Start], 3), vec![None]);
    let mut buf = Buffer::new(3, 1);
    let row = Horizontal::new(Constraint::constant(3), Alignment::Start).add(Widget::Vertical(
        Vertical::new(Constraint::constant(5), Alignment::Start).set_color(Some(Color::gray(3)), None),
    ));
    row.write_buffer(&mut buf, Rect::new(0, 0, 3, 1));
    assert_eq!(buf.get_buffer(), vec!["\x1b[0m   \x1b[0m".to_string()]);
}

#[test]
fn proportional_bounds() {
    let aligns = vec![Alignment::Start];
    // Wants 50 of 100 but at most 30.
    assert_eq!(split_extent(&vec![Constraint::percentage(50, 30, 0).unwrap()], &aligns, 100), vec![Some((0, 30))]);
    // Wants 10 of 100, at least 20.
    assert_eq!(split_extent(&vec![Constraint::percentage(10, 50, 20).unwrap()], &aligns, 100), vec![Some((0, 20))]);
    // Wants 33 of 100 (rounded down).
    assert_eq!(split_extent(&vec![Constraint::percentage(33, 50, 0).unwrap()], &aligns, 100), vec![Some((0, 33))]);
    // Needs at least 20 of 10.
    assert_eq!(split_extent(&vec![Constraint::percentage(10, 50, 20).unwrap()], &aligns, 10), vec![None]);
}

#[test]
fn end_aligned_children_pack_from_the_far_edge() {
    let cons = vec![Constraint::constant(2), Constraint::constant(3), Constraint::constant(1)];
    let aligns = vec![Alignment::End, Alignment::Start, Alignment::End];
    assert_eq!(split_extent(&cons, &aligns, 10), vec![Some((7, 2)), Some((0, 3)), Some((9, 1))]);
}

#[test]
fn ly_test() {
    let ver_lay = Vertical::new(Constraint::percentage(100, 200, 0).unwrap(), Alignment::Start)
        .add(Widget::Horizontal(
            Horizontal::new(Constraint::constant(3), Alignment::Start)
                .set_border(Some(border::single_rounded()))
                .set_color(Some(Color::from_rgb(255, 255, 255)), Some(Color::from_rgb(100, 100, 100))),
        ))
        .add(Widget::Horizontal(
            Horizontal::new(Constraint::percentage(100, 200, 5).unwrap(), Alignment::Start)
                .set_border(Some(border::single_rounded()))
                .set_color(Some(Color::from_rgb(255, 255, 255)), Some(Color::from_rgb(80, 80, 80)))
                .add(Widget::Vertical(
                    Vertical::new(Constraint::constant(20), Alignment::Start)
                        .set_border(Some(border::single_rounded()))
                        .set_color(Some(Color::from_rgb(255, 255, 255)), Some(Color::from_rgb(120, 120, 120))),
                )),
        ))
        .add(Widget::Horizontal(
            Horizontal::new(Constraint::constant(3), Alignment::End)
                .set_border(Some(border::single()))
                .set_color(Some(Color::from_rgb(255, 255, 255)), Some(Color::from_rgb(100, 100, 100))),
        ));

    let (width, height) = (80usize, 20usize);
    let mut buf = Buffer::new(width, height);
    let rect = Rect::new(0, 0, width, height);
    ver_lay.write_buffer(&mut buf, rect);

    let text = buf.text_lines();
    assert_eq!(text.len(), height);
    for l in &text {
        assert_eq!(UnicodeWidthStr::width(l.as_str()), width);
    }
    assert_eq!(text[0], format!("╭{}╮", "─".repeat(78)));
    assert_eq!(text[3], format!("╭{}╮", "─".repeat(78)));
    assert_eq!(text[4], format!("│╭{}╮{}│", "─".repeat(18), " ".repeat(58)));
    assert_eq!(text[15], format!("│╰{}╯{}│", "─".repeat(18), " ".repeat(58)));
    assert_eq!(text[17], format!("┌{}┐", "─".repeat(78)));
    assert_eq!(text[19], format!("└{}┘", "─".repeat(78)));
    for l in buf.get_buffer() {
        println!("{}\x1b[0m", l);
    }
}

#[test]
fn button_asks_for_its_text_width() {
    let b = Button::new("abあ".to_string());
    assert_eq!(b.get_constraint(), Constraint::constant(4));
}

#[test]
fn dropped_fixed_child_does_not_stop_later_ones() {
    let cons = vec![Constraint::constant(7), Constraint::constant(5), Constraint::constant(3)];
    let aligns = vec![Alignment::Start; 3];
    assert_eq!(split_extent(&cons, &aligns, 10), vec![Some((0, 7)), None, Some((7, 3))]);
}

#[test]
fn leading_children_keep_their_order() {
    let cons = vec![Constraint::percentage(50, 100, 0).unwrap(), Constraint::constant(10)];
    let aligns = vec![Alignment::Start; 2];
    assert_eq!(split_extent(&cons, &aligns, 20), vec![Some((0, 5)), Some((5, 10))]);
}

#[test]
fn column_split_places_rows() {
    let mut buf = Buffer::new(4, 6);
    let col = Vertical::new(Constraint::constant(6), Alignment::Start)
        .add(Widget::Horizontal(
            Horizontal::new(Constraint::constant(3), Alignment::Start).set_border(Some(border::double())),
        ))
        .add(Widget::Horizontal(
            Horizontal::new(Constraint::constant(3), Alignment::End).set_border(Some(border::single())),
        ));
    col.write_buffer(&mut buf, Rect::new(0, 0, 4, 6));
    assert_eq!(
        buf.text_lines(),
        vec!["╔══╗", "║  ║", "╚══╝", "┌──┐", "│  │", "└──┘"].iter().map(|s| s.to_string()).collect::<Vec<_>>()
    );
}
