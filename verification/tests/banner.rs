use countdown::app::App;
use countdown::counter::{Counter, DisplayClock};
use countdown::layout::Area;
use figlet_rs::FIGfont;

#[test]
fn banner_is_the_figure_of_the_clock_text() {
    let font = FIGfont::standard().unwrap();
    for n in [0, 5, 65, 5400, -1, -3725] {
        let clock = Counter::new(n).display();
        let expected = font.convert(&clock.text()).unwrap().to_string();
        assert_eq!(clock.banner(&font), Some(expected));
    }
}

#[test]
fn banner_has_the_height_of_the_font() {
    let font = FIGfont::standard().unwrap();
    let banner = Counter::new(90).display().banner(&font).unwrap();
    assert_eq!(banner.lines().count(), 6);
    assert_ne!(banner, "1:30");
}

#[test]
fn banner_of_one_digit() {
    let font = FIGfont::standard().unwrap();
    let clock = DisplayClock { hours: 0, minutes: 0, seconds: 1, sign_negative: false };
    let expected = ["  _ ", " / |", " | |", " | |", " |_|", "    ", ""].join("\n");
    assert_eq!(clock.banner(&font), Some(expected));
}

#[test]
fn font_without_the_glyphs_gives_no_banner() {
    let mut font = FIGfont::standard().unwrap();
    font.fonts.clear();
    assert_eq!(Counter::new(90).display().banner(&font), None);
}

#[test]
fn frame_places_clock_and_message() {
    let font = FIGfont::standard().unwrap();
    let app = App::new("tea", 90);
    let frame = app.render(Area::new(0, 0, 200, 50), &font);
    assert_eq!(frame.clock_area, Area { x: 36, y: 22, width: 126, height: 5 });
    assert_eq!(frame.message_area, Some(Area { x: 70, y: 27, width: 60, height: 23 }));
    assert_eq!(frame.figure, Counter::new(90).display().banner(&font));
    assert_eq!(frame.figure, Some(font.convert("1:30").unwrap().to_string()));
}

#[test]
fn frame_without_message_has_no_place_for_it() {
    let font = FIGfont::standard().unwrap();
    let app = App::new("", -5);
    let frame = app.render(Area::new(0, 0, 80, 24), &font);
    assert_eq!(frame.clock_area, Area { x: 0, y: 9, width: 80, height: 5 });
    assert_eq!(frame.message_area, None);
    assert_eq!(frame.figure, Some(font.convert("-5").unwrap().to_string()));
}

#[test]
fn frame_follows_the_counter() {
    let font = FIGfont::standard().unwrap();
    let mut app = App::new("", 1);
    app.step(Some(countdown::quit::AppEvent::TickEvent), false);
    let frame = app.render(Area::new(0, 0, 80, 24), &font);
    assert_eq!(frame.figure, Some(font.convert("0").unwrap().to_string()));
}
