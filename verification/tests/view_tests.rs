use translator::geom::{halves, rect, Point};
use translator::translator::{NetworkFailure, TranslateError, Translation as Text, TranslationProvider};
use translator::view::translation::{
    after_attempt, escape, failure_to_content, layout, source_language, translation_to_content,
    ButtonCode, ButtonStatus, Command, CycleDir, Delivery, Dir, Event, Location, Menu,
    RenderRequest, Translation, TranslationSettings, UpdateMode, ViewId, NETWORK_WAIT_MS,
    RETRY_DELAY_MS,
};

fn text(t: &str, detected: Option<&str>) -> Text {
    Text { text: t.to_string(), detected_source: detected.map(|s| s.to_string()) }
}

#[test]
fn escape_replaces_markup_characters() {
    assert_eq!(escape("a < b && c > d"), "a &lt; b &amp;&amp; c &gt; d");
    assert_eq!(escape("&lt;"), "&amp;lt;");
    assert_eq!(escape("plain"), "plain");
    assert_eq!(escape(""), "");
}

#[test]
fn escape_reads_back_and_leaves_no_markup() {
    let samples = ["<b>&amp;</b>", "x > y", "&&&", "日本 <>"];
    for s in samples {
        let e = escape(s);
        assert!(!e.contains('<') && !e.contains('>'));
        let back = e.replace("&lt;", "<").replace("&gt;", ">").replace("&amp;", "&");
        assert_eq!(back, s);
    }
}

#[test]
fn content_lists_the_non_blank_lines() {
    let t = text("Hello\n\n  \nworld <3\n", None);
    assert_eq!(
        translation_to_content(&t, "en", "fr"),
        "<p class=\"info\">en \u{2192} fr</p>\n<p>Hello</p>\n<p>world &lt;3</p>\n"
    );
}

#[test]
fn content_names_the_detected_language() {
    let t = text("Bonjour", Some("fr"));
    assert_eq!(
        translation_to_content(&t, "auto", "en"),
        "<p class=\"info\">fr \u{2192} en</p>\n<p>Bonjour</p>\n"
    );
}

#[test]
fn blank_translation_shows_only_the_languages() {
    let t = text(" \n\t\n", None);
    assert_eq!(translation_to_content(&t, "a&b", "c"), "<p class=\"info\">a&amp;b \u{2192} c</p>\n");
    assert_eq!(translation_to_content(&text("", None), "x", "y"), "<p class=\"info\">x \u{2192} y</p>\n");
}

#[test]
fn failures_are_described() {
    assert_eq!(
        failure_to_content("no <route>"),
        "<p class=\"info\">Can't translate: no &lt;route&gt;.</p>"
    );
}

#[test]
fn worker_shows_a_translation() {
    let outcome: Result<Text, TranslateError> = Ok(text("Hallo", None));
    match after_attempt(&outcome, 0, "en", "de") {
        Delivery::Show(c) => assert_eq!(c, "<p class=\"info\">en \u{2192} de</p>\n<p>Hallo</p>\n"),
        Delivery::RetryAfter(_) => panic!("retried a translation"),
    }
}

#[test]
fn worker_retries_transient_failures_for_a_while() {
    let outcome: Result<Text, TranslateError> = Err(TranslateError::Network {
        failure: NetworkFailure::HostNotFound,
        message: "dns".to_string(),
    });
    assert!(matches!(after_attempt(&outcome, 0, "en", "de"), Delivery::RetryAfter(RETRY_DELAY_MS)));
    assert!(matches!(
        after_attempt(&outcome, NETWORK_WAIT_MS - 1, "en", "de"),
        Delivery::RetryAfter(2500)
    ));
    match after_attempt(&outcome, NETWORK_WAIT_MS, "en", "de") {
        Delivery::Show(c) => assert_eq!(c, "<p class=\"info\">Can't translate: dns.</p>"),
        Delivery::RetryAfter(_) => panic!("retried after the wait"),
    }
}

#[test]
fn worker_does_not_retry_other_failures() {
    let outcome: Result<Text, TranslateError> = Err(TranslateError::UnexpectedResponse("{}".to_string()));
    match after_attempt(&outcome, 10, "en", "de") {
        Delivery::Show(c) => assert_eq!(c, "<p class=\"info\">Can't translate: Unexpected response: {}.</p>"),
        Delivery::RetryAfter(_) => panic!("retried"),
    }
}

#[test]
fn unexpected_replies_are_quoted_up_to_128_bytes() {
    let body = format!("[{}]", "x".repeat(300));
    let outcome: Result<Text, TranslateError> = Err(TranslateError::UnexpectedResponse(body.clone()));
    match after_attempt(&outcome, 0, "en", "de") {
        Delivery::Show(c) => assert_eq!(
            c,
            format!("<p class=\"info\">Can't translate: Unexpected response: {}.</p>", &body[..128])
        ),
        Delivery::RetryAfter(_) => panic!("retried"),
    }
}

#[test]
fn network_failures_are_shown_with_the_client_report() {
    let outcome: Result<Text, TranslateError> = Err(TranslateError::Network {
        failure: NetworkFailure::Other,
        message: "http status: 503".to_string(),
    });
    match after_attempt(&outcome, 0, "en", "de") {
        Delivery::Show(c) => assert_eq!(c, "<p class=\"info\">Can't translate: http status: 503.</p>"),
        Delivery::RetryAfter(_) => panic!("retried"),
    }
}

#[test]
fn source_language_falls_back_to_the_setting() {
    assert_eq!(source_language("en-US", "auto"), "en");
    assert_eq!(source_language("English", "auto"), "auto");
}

#[test]
fn halves_add_up() {
    assert_eq!(halves(3), (1, 2));
    assert_eq!(halves(4), (2, 2));
    assert_eq!(halves(0), (0, 0));
    assert_eq!(halves(-3), (-1, -2));
}

#[test]
fn layout_tiles_the_view() {
    for (r, sh, th) in [(rect(0, 0, 600, 800), 66, 3), (rect(10, 20, 30, 400), 40, 4), (rect(0, -5, 9, 9), 0, 1)] {
        let l = layout(r, sh, th);
        for part in [l.top_bar, l.separator, l.image] {
            assert_eq!((part.min.x, part.max.x), (r.min.x, r.max.x));
        }
        assert_eq!(l.top_bar.min.y, r.min.y);
        assert_eq!(l.top_bar.max.y, l.separator.min.y);
        assert_eq!(l.separator.max.y, l.image.min.y);
        assert_eq!(l.image.max.y, r.max.y);
        assert_eq!(l.separator.max.y - l.separator.min.y, th);
    }
}

#[test]
fn layout_stacks_the_parts() {
    let l = layout(rect(0, 0, 600, 800), 66, 3);
    assert_eq!(l.top_bar, rect(0, 0, 600, 65));
    assert_eq!(l.separator, rect(0, 65, 600, 68));
    assert_eq!(l.image, rect(0, 68, 600, 800));
}

fn settings() -> TranslationSettings {
    TranslationSettings {
        source: "auto".to_string(),
        target: "en".to_string(),
        provider: TranslationProvider::Google,
    }
}

fn view() -> Translation {
    Translation::new(7, rect(0, 0, 600, 800), 66, 3, "Hallo", "de-AT", &settings(), true).0
}

#[test]
fn opening_lays_out_redraws_and_starts_the_worker() {
    let (v, opening) =
        Translation::new(9, rect(0, 0, 600, 800), 66, 3, "Hallo Welt", "German", &settings(), false);
    assert_eq!(v.id(), 9);
    assert_eq!(opening.layout.top_bar, rect(0, 0, 600, 65));
    assert_eq!(opening.layout.separator, rect(0, 65, 600, 68));
    assert_eq!(opening.layout.image, rect(0, 68, 600, 800));
    assert_eq!(opening.title, "Translation");
    assert_eq!(opening.separator_gray, 0);
    assert_eq!((opening.page_width, opening.page_height), (600, 732));
    assert_eq!(opening.redraw, RenderRequest { id: 9, rect: rect(0, 0, 600, 800), mode: UpdateMode::Gui });
    assert!(opening.ask_wifi);
    assert_eq!(opening.pending, "<p class=\"info\">Translating\u{2026}</p>");
    assert_eq!(opening.job.query, "Hallo Welt");
    assert_eq!(opening.job.source, "auto");
    assert_eq!(opening.job.target, "en");
    assert_eq!(opening.job.provider, TranslationProvider::Google);
    let (_, online) = Translation::new(9, rect(0, 0, 600, 800), 66, 3, "x", "ru", &settings(), true);
    assert!(!online.ask_wifi);
    assert_eq!(online.job.source, "ru");
}

#[test]
fn new_view_starts_at_the_beginning() {
    let v = view();
    assert_eq!(v.id(), 7);
    assert_eq!(v.location(), 0);
    assert_eq!(v.rect(), rect(0, 0, 600, 800));
    assert_eq!(v.render_target(), Location::Exact(0));
}

#[test]
fn turning_pages_follows_the_document() {
    let mut v = view();
    assert_eq!(v.neighbor(CycleDir::Next), Location::Next(0));
    assert!(v.go_to_neighbor(Some(3)));
    assert_eq!(v.location(), 3);
    assert_eq!(v.neighbor(CycleDir::Previous), Location::Previous(3));
    assert!(!v.go_to_neighbor(None));
    assert_eq!(v.location(), 3);
    v.render_content(Some(2));
    assert_eq!(v.location(), 2);
    v.render_content(None);
    assert_eq!(v.location(), 2);
}

#[test]
fn new_translation_resets_the_location() {
    let mut v = view();
    v.go_to_neighbor(Some(5));
    let (handled, cmd) = v.handle_event(&Event::TranslationReady("<p>x</p>".to_string()));
    assert!(handled);
    assert!(matches!(cmd, Some(Command::Show(c)) if c == "<p>x</p>"));
    assert_eq!(v.location(), 0);
}

fn turn(res: (bool, Option<Command>)) -> Option<(CycleDir, bool)> {
    assert!(res.0);
    match res.1 {
        Some(Command::Turn { dir, back_if_stuck }) => Some((dir, back_if_stuck)),
        _ => None,
    }
}

#[test]
fn gestures_turn_pages() {
    let mut v = view();
    let p = Point { x: 100, y: 100 };
    assert_eq!(turn(v.handle_event(&Event::Page(CycleDir::Next))), Some((CycleDir::Next, false)));
    assert_eq!(
        turn(v.handle_event(&Event::Swipe { dir: Dir::West, start: p, end: p })),
        Some((CycleDir::Next, false))
    );
    assert_eq!(
        turn(v.handle_event(&Event::Swipe { dir: Dir::East, start: p, end: p })),
        Some((CycleDir::Previous, false))
    );
    assert_eq!(turn(v.handle_event(&Event::Swipe { dir: Dir::North, start: p, end: p })), None);
    let outside = Point { x: 700, y: 100 };
    let (handled, cmd) = v.handle_event(&Event::Swipe { dir: Dir::West, start: outside, end: p });
    assert!(!handled && cmd.is_none());
}

#[test]
fn taps_turn_by_half() {
    let mut v = view();
    assert_eq!(turn(v.handle_event(&Event::Tap(Point { x: 299, y: 5 }))), Some((CycleDir::Previous, false)));
    assert_eq!(turn(v.handle_event(&Event::Tap(Point { x: 300, y: 5 }))), Some((CycleDir::Next, false)));
    let (handled, cmd) = v.handle_event(&Event::Tap(Point { x: 10, y: 800 }));
    assert!(!handled && cmd.is_none());
}

#[test]
fn buttons_turn_pages_or_leave() {
    let mut v = view();
    let released = |code| Event::Button { code, status: ButtonStatus::Released };
    assert_eq!(turn(v.handle_event(&released(ButtonCode::Backward))), Some((CycleDir::Previous, true)));
    assert_eq!(turn(v.handle_event(&released(ButtonCode::Forward))), Some((CycleDir::Next, true)));
    assert_eq!(turn(v.handle_event(&released(ButtonCode::Other))), None);
    let (handled, cmd) = v.handle_event(&Event::Button { code: ButtonCode::Forward, status: ButtonStatus::Pressed });
    assert!(!handled && cmd.is_none());
}

#[test]
fn menus_reseed_and_close() {
    let mut v = view();
    let r = rect(1, 2, 3, 4);
    assert!(matches!(v.handle_event(&Event::ToggleNear(ViewId::MainMenu, r)), (true, Some(Command::ToggleMenu(Menu::Main, x))) if x == r));
    assert!(matches!(v.handle_event(&Event::ToggleNear(ViewId::BatteryMenu, r)), (true, Some(Command::ToggleMenu(Menu::Battery, _)))));
    assert!(matches!(v.handle_event(&Event::ToggleNear(ViewId::ClockMenu, r)), (true, Some(Command::ToggleMenu(Menu::Clock, _)))));
    assert!(matches!(v.handle_event(&Event::ToggleNear(ViewId::Other, r)), (false, None)));
    assert!(matches!(v.handle_event(&Event::Reseed), (true, Some(Command::Reseed))));
    assert!(matches!(v.handle_event(&Event::Cross(Point { x: 0, y: 0 })), (true, Some(Command::Back))));
    assert!(matches!(v.handle_event(&Event::Other), (false, None)));
    assert_eq!(v.location(), 0);
}

#[test]
fn reseed_and_resize_redraw() {
    let mut v = view();
    assert_eq!(v.reseed(), RenderRequest { id: 7, rect: rect(0, 0, 600, 800), mode: UpdateMode::Gui });
    v.go_to_neighbor(Some(4));
    let resizing = v.resize(rect(0, 0, 800, 600), 66, 3);
    assert_eq!(resizing.layout.image, rect(0, 68, 800, 600));
    assert_eq!((resizing.page_width, resizing.page_height), (800, 532));
    assert_eq!(resizing.others, rect(0, 0, 800, 600));
    assert_eq!(resizing.redraw, RenderRequest { id: 7, rect: rect(0, 0, 800, 600), mode: UpdateMode::Full });
    assert_eq!(v.rect(), rect(0, 0, 800, 600));
    assert_eq!(v.location(), 4);
}

#[test]
fn sizes_wrap_like_unsigned_casts() {
    assert_eq!(rect(0, 0, 600, 800).width(), 600);
    assert_eq!(rect(0, 0, 600, 800).height(), 800);
    assert_eq!(rect(5, 9, 3, 4).width(), (-2i32) as u32);
    assert_eq!(rect(5, 9, 3, 4).height(), (-5i32) as u32);
    assert!(rect(0, 0, 10, 10).includes(Point { x: 0, y: 9 }));
    assert!(!rect(0, 0, 10, 10).includes(Point { x: 10, y: 0 }));
}

#[test]
fn the_id_and_the_tiling_hold_across_calls() {
    let (mut v, opening) =
        Translation::new(3, rect(0, 0, 600, 800), 66, 3, "q", "en", &settings(), true);
    assert_eq!(v.id(), opening.redraw.id);
    let mut parts = opening.layout;
    let steps = [Event::Page(CycleDir::Next), Event::Reseed, Event::Other];
    for (i, evt) in steps.iter().enumerate() {
        v.handle_event(evt);
        v.go_to_neighbor(Some(i));
        if i == 1 {
            parts = v.resize(rect(0, 0, 1000, 700), 66, 3).layout;
        }
        let r = v.rect();
        assert_eq!(v.id(), 3);
        assert_eq!(parts.top_bar.min.y, r.min.y);
        assert_eq!(parts.top_bar.max.y, parts.separator.min.y);
        assert_eq!(parts.separator.max.y, parts.image.min.y);
        assert_eq!(parts.image.max.y, r.max.y);
        assert_eq!(parts.image.max.x, r.max.x);
    }
}
