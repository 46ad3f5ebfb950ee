use utmmmmm::display::tape_window;
use utmmmmm::utm_symbols::Symbol;

#[test]
fn window_near_the_start_pads_with_spaces() {
    let tape = vec![Symbol::Dollar, Symbol::Zero, Symbol::One];
    let (top, bot) = tape_window(&tape, 1, Symbol::Blank);
    let mut want = String::from("    ");
    want.push_str(&" ".repeat(29));
    want.push_str("$01");
    want.push_str(&"_".repeat(29));
    want.push_str(" ...");
    assert_eq!(top, want);
    assert_eq!(bot, format!("    {}^{}", " ".repeat(30), " ".repeat(30)));
}

#[test]
fn window_far_from_the_start_shows_an_ellipsis() {
    let tape: Vec<Symbol> = (0..100).map(|i| if i % 2 == 0 { Symbol::Zero } else { Symbol::One }).collect();
    let (top, _) = tape_window(&tape, 50, Symbol::Blank);
    assert!(top.starts_with("... "));
    assert!(top.ends_with(" ..."));
    let middle: String = top.chars().skip(4).take(61).collect();
    let want: String = (20..81).map(|i| if i % 2 == 0 { '0' } else { '1' }).collect();
    assert_eq!(middle, want);
}
