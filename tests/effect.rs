use tui_renderer::effect::{Color, Effect, EffectType};

#[test]
fn rep_test() {
    let line = " ".to_string().repeat(120);
    let start1 = std::time::Instant::now();
    let buf1: Vec<String> = std::iter::repeat(line.clone()).take(30).collect();
    let end1 = start1.elapsed().as_micros();

    let start2 = std::time::Instant::now();
    let mut buf2 = vec![];
    for _ in 0..30 {
        buf2.push(line.clone());
    }
    let end2 = start2.elapsed().as_micros();

    assert_eq!(buf1, buf2);
    println!("1 : {}ms", end1 as f32 / 1000000.0);
    println!("2 : {}ms", end2 as f32 / 1000000.0);
}

#[test]
fn eff_test() {
    let front_col = Effect::front_color(Color::from_rgb(0, 0, 0), 0);
    let back_col = Effect::back_color(Color::from_rgb(30, 170, 150), 0);
    println!(
        "{}{}{}|{}|  a |{}{}{} |{} ",
        Effect::reset(0).to_string().as_str(),
        front_col.to_string().as_str(),
        back_col.to_string().as_str(),
        Effect::reset(1).to_string().as_str(),
        Effect::reset(1).to_string().as_str(),
        front_col.to_string().as_str(),
        back_col.to_string().as_str(),
        Effect::reset(1).to_string().as_str(),
    );
    assert_eq!(front_col.to_string(), "\x1b[38;2;0;0;0m");
    assert_eq!(back_col.to_string(), "\x1b[48;2;30;170;150m");
    assert_eq!(Effect::reset(1).to_string(), "\x1b[0m");
}

#[test]
fn color_codes() {
    assert_eq!(Color::from_rgb(255, 9, 10).code, "2;255;9;10m");
    assert_eq!(Color::from_rgb_8bit(1, 2, 3).code, "5;67m");
    assert_eq!(Color::from_rgb_8bit(5, 5, 5).code, "5;231m");
    assert_eq!(Color::gray(0).code, "5;232m");
    assert_eq!(Color::gray(23).code, "5;255m");
    assert_eq!(Color::from_rgb(1, 2, 3).to_front_seq(), "\x1b[38;2;1;2;3m");
    assert_eq!(Color::gray(4).to_back_seq(), "\x1b[48;5;236m");
}

#[test]
fn attribute_codes() {
    let cases = vec![
        (Effect::bold(3), EffectType::Bold, "\x1b[1m"),
        (Effect::thin(3), EffectType::Thin, "\x1b[2m"),
        (Effect::italic(3), EffectType::Italic, "\x1b[3m"),
        (Effect::under_line(3), EffectType::UnderLine, "\x1b[4m"),
        (Effect::bling(3), EffectType::Bling, "\x1b[5m"),
        (Effect::fast_bling(3), EffectType::FastBling, "\x1b[6m"),
        (Effect::invert(3), EffectType::Invert, "\x1b[7m"),
        (Effect::conceal(3), EffectType::Hide, "\x1b[8m"),
        (Effect::cancel(3), EffectType::Cancel, "\x1b[9m"),
    ];
    for (e, kind, code) in cases {
        assert_eq!(e.kind, kind);
        assert_eq!(e.pos, 3);
        assert_eq!(e.to_string(), code);
    }
    let moved = Effect::bold(3).at(7);
    assert_eq!(moved.pos, 7);
    assert_eq!(moved.to_string(), "\x1b[1m");
}
