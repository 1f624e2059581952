//! The translation view: the HTML that shows a translation, and the paging
//! and event decisions of the view that displays it.

use vstd::prelude::*;
use crate::text::{is_blank, push_char};
use crate::translator;
use crate::geom::{Point, Rectangle, halves, rect};

verus! {

/// What one character becomes in HTML text: `&`, `<` and `>` become entities.
pub open spec fn escape_char(c: char) -> Seq<char> {
    if c == '&' {
        seq!['&', 'a', 'm', 'p', ';']
    } else if c == '<' {
        seq!['&', 'l', 't', ';']
    } else if c == '>' {
        seq!['&', 'g', 't', ';']
    } else {
        seq![c]
    }
}

/// The HTML-escaped form of a text.
pub open spec fn escaped(s: Seq<char>) -> Seq<char>
    decreases s.len(),
{
    if s.len() == 0 {
        Seq::empty()
    } else {
        escaped(s.drop_last()) + escape_char(s.last())
    }
}

/// Replaces `&`, `<` and `>` by their HTML entities.
pub fn escape(text: &str) -> (r: String)
    ensures
        r@ == escaped(text@),
{
    broadcast use vstd::string::group_string_axioms;

    let mut out = String::new();
    for c in it: text.chars()
        invariant
            it.seq() == text@,
            out@ == escaped(text@.take(it.index() as int)),
    {
        assert(c == text@[it.index() as int]);
        if c == '&' {
            push_char(&mut out, '&');
            push_char(&mut out, 'a');
            push_char(&mut out, 'm');
            push_char(&mut out, 'p');
            push_char(&mut out, ';');
        } else if c == '<' {
            push_char(&mut out, '&');
            push_char(&mut out, 'l');
            push_char(&mut out, 't');
            push_char(&mut out, ';');
        } else if c == '>' {
            push_char(&mut out, '&');
            push_char(&mut out, 'g');
            push_char(&mut out, 't');
            push_char(&mut out, ';');
        } else {
            push_char(&mut out, c);
        }
        assert(text@.take(it.index() + 1).drop_last() =~= text@.take(it.index() as int));
    }
    assert(text@.take(text@.len() as int) =~= text@);
    out
}

/// The pieces of `s` between its line feeds, as `str::split('\n')` gives them:
/// a text with `k` line feeds has `k + 1` lines, some of them empty.
pub open spec fn lines(s: Seq<char>) -> Seq<Seq<char>>
    decreases s.len(),
{
    if s.len() == 0 {
        seq![Seq::empty()]
    } else {
        let init = lines(s.drop_last());
        if s.last() == '\n' {
            init.push(Seq::empty())
        } else {
            init.update(init.len() - 1, init.last().push(s.last()))
        }
    }
}

/// A text always splits into at least one line.
pub proof fn lemma_lines_nonempty(s: Seq<char>)
    ensures
        lines(s).len() >= 1,
    decreases s.len(),
{
    if s.len() > 0 {
        lemma_lines_nonempty(s.drop_last());
    }
}

/// The HTML paragraph of one line of the translated text.
pub open spec fn paragraph(line: Seq<char>) -> Seq<char> {
    "<p>"@ + escaped(line) + "</p>\n"@
}

/// The paragraphs of the lines that are not blank, in order.
pub open spec fn paragraphs(ls: Seq<Seq<char>>) -> Seq<char>
    decreases ls.len(),
{
    if ls.len() == 0 {
        Seq::empty()
    } else {
        paragraphs(ls.drop_last()) + if crate::text::trimmed(ls.last()).len() == 0 {
            Seq::empty()
        } else {
            paragraph(ls.last())
        }
    }
}

/// The line that names the two languages, above the translated paragraphs.
pub open spec fn language_line(source: Seq<char>, target: Seq<char>) -> Seq<char> {
    "<p class=\"info\">"@ + escaped(source) + " \u{2192} "@ + escaped(target) + "</p>\n"@
}

/// The HTML of a translation: the language line, with the detected source
/// language when the provider reported one, then one paragraph per line of
/// the text that is not blank.
pub open spec fn content_of(text: Seq<char>, source: Seq<char>, target: Seq<char>) -> Seq<char> {
    language_line(source, target) + paragraphs(lines(text))
}

/// The source language that a translation is shown with: the detected one
/// when there is one, else the one that was asked for.
pub open spec fn shown_source(translation: translator::Translation, source: Seq<char>) -> Seq<char> {
    match translation.detected_source {
        Some(s) => s@,
        None => source,
    }
}

/// The HTML document that shows `translation`.
pub fn translation_to_content(translation: &translator::Translation, source: &str, target: &str) -> (r: String)
    ensures
        r@ == content_of(translation.text@, shown_source(*translation, source@), target@),
{
    broadcast use vstd::string::group_string_axioms;

    let source = match &translation.detected_source {
        Some(s) => s.as_str(),
        None => source,
    };
    let mut content = String::new();
    content.append("<p class=\"info\">");
    content.append(escape(source).as_str());
    content.append(" \u{2192} ");
    content.append(escape(target).as_str());
    content.append("</p>\n");
    let ghost header = content@;
    let text = translation.text.as_str();
    let mut line = String::new();
    proof {
        lemma_lines_nonempty(text@.take(0));
        assert(text@.take(0) =~= Seq::<char>::empty());
        assert(lines(text@.take(0)).drop_last() =~= Seq::<Seq<char>>::empty());
    }
    for c in it: text.chars()
        invariant
            it.seq() == text@,
            header == language_line(shown_source(*translation, source@), target@),
            lines(text@.take(it.index() as int)).len() >= 1,
            line@ == lines(text@.take(it.index() as int)).last(),
            content@ == header + paragraphs(lines(text@.take(it.index() as int)).drop_last()),
    {
        let ghost before = text@.take(it.index() as int);
        let ghost after = text@.take(it.index() + 1);
        assert(c == text@[it.index() as int]);
        assert(after.drop_last() =~= before);
        proof {
            lemma_lines_nonempty(after);
        }
        if c == '\n' {
            let blank = is_blank(line.as_str());
            if !blank {
                content.append("<p>");
                content.append(escape(line.as_str()).as_str());
                content.append("</p>\n");
            }
            proof {
                assert(lines(after).drop_last() =~= lines(before));
                assert(lines(before) =~= lines(before).drop_last().push(lines(before).last()));
                assert(lines(before).drop_last().push(lines(before).last()).drop_last()
                    =~= lines(before).drop_last());
            }
            line = String::new();
        } else {
            push_char(&mut line, c);
            assert(lines(after).drop_last() =~= lines(before).drop_last());
        }
    }
    assert(text@.take(text@.len() as int) =~= text@);
    let ghost ls = lines(text@);
    if !is_blank(line.as_str()) {
        content.append("<p>");
        content.append(escape(line.as_str()).as_str());
        content.append("</p>\n");
    }
    assert(ls =~= ls.drop_last().push(ls.last()));
    assert(ls.drop_last().push(ls.last()).drop_last() =~= ls.drop_last());
    content
}

/// How long the worker keeps retrying while the wifi module loads and DHCP
/// settles, in milliseconds.
pub const NETWORK_WAIT_MS: u64 = 45000;

/// The pause between two attempts, in milliseconds.
pub const RETRY_DELAY_MS: u64 = 2500;

/// The text shown when a translation failed, with the error's description.
pub open spec fn failure_content(message: Seq<char>) -> Seq<char> {
    "<p class=\"info\">Can't translate: "@ + escaped(message) + ".</p>"@
}

/// The HTML that tells that a translation failed, with the error's description.
pub fn failure_to_content(message: &str) -> (r: String)
    ensures
        r@ == failure_content(message@),
{
    let mut content = String::new();
    content.append("<p class=\"info\">Can't translate: ");
    content.append(escape(message).as_str());
    content.append(".</p>");
    content
}

/// What the translation worker does after an attempt.
#[derive(Debug)]
pub enum Delivery {
    /// Hand this HTML to the view, and stop.
    Show(String),
    /// Wait this many milliseconds, then try again.
    RetryAfter(u64),
}

/// Whether a failed attempt is tried again: only a transient failure, and only
/// while the network may still be coming up.
pub open spec fn retried(err: translator::TranslateError, elapsed_ms: u64) -> bool {
    translator::transient(err) && elapsed_ms < NETWORK_WAIT_MS
}

/// The worker's decision after an attempt that took place `elapsed_ms`
/// milliseconds after it started: a translation is shown; a transient failure
/// is retried after [`RETRY_DELAY_MS`] while less than [`NETWORK_WAIT_MS`]
/// went by; any other failure is shown with its description.
pub fn after_attempt(
    outcome: &Result<translator::Translation, translator::TranslateError>,
    elapsed_ms: u64,
    source: &str,
    target: &str,
) -> (r: Delivery)
    requires
        outcome matches Err(translator::TranslateError::UnexpectedResponse(body))
            ==> translator::excerpt_cuttable(body@),
    ensures
        match outcome {
            Ok(t) => r matches Delivery::Show(c) && c@ == content_of(
                t.text@,
                shown_source(*t, source@),
                target@,
            ),
            Err(e) => if retried(*e, elapsed_ms) {
                r == Delivery::RetryAfter(RETRY_DELAY_MS)
            } else {
                r matches Delivery::Show(c) && exists|d: Seq<char>|
                    #[trigger] translator::described(*e, d) && c@ == failure_content(d)
            },
        },
{
    match outcome {
        Ok(translation) => Delivery::Show(translation_to_content(translation, source, target)),
        Err(e) => {
            if translator::is_transient(e) && elapsed_ms < NETWORK_WAIT_MS {
                Delivery::RetryAfter(RETRY_DELAY_MS)
            } else {
                let description = translator::describe(e);
                let content = failure_to_content(description.as_str());
                assert(translator::described(*e, description@));
                Delivery::Show(content)
            }
        },
    }
}

/// The source language a translation asks for: the book's language when it
/// names a provider code, else the configured one.
pub fn source_language(language: &str, configured: &str) -> (r: String)
    ensures
        r@ == match translator::language_code(language@) {
            Some(code) => code,
            None => configured@,
        },
{
    match translator::normalize_language(language) {
        Some(code) => code,
        None => configured.to_owned(),
    }
}

/// The places of the view's parts: the top bar, the separator line under it,
/// and the area that shows the document.
#[derive(Clone, Copy, Debug)]
pub struct Layout {
    pub top_bar: Rectangle,
    pub separator: Rectangle,
    pub image: Rectangle,
}

/// The additions that laying out `r` makes stay within `i32`.
pub open spec fn layout_fits(r: Rectangle, small_height: i32, thickness: i32) -> bool {
    let small = crate::geom::half_toward_zero(thickness as int);
    let big = thickness - small;
    &&& i32::MIN <= r.min.y + small_height <= i32::MAX
    &&& i32::MIN <= r.min.y + small_height - small <= i32::MAX
    &&& i32::MIN <= r.min.y + small_height + big <= i32::MAX
}

/// The layout of a view in `r`: a top bar of `small_height` pixels, a line of
/// `thickness` pixels centred on its lower edge, and the document below.
pub open spec fn layout_of(r: Rectangle, small_height: i32, thickness: i32) -> Layout {
    let small = crate::geom::half_toward_zero(thickness as int);
    let big = thickness - small;
    let bar_bottom = (r.min.y + small_height - small) as i32;
    let line_bottom = (r.min.y + small_height + big) as i32;
    Layout {
        top_bar: Rectangle { min: r.min, max: Point { x: r.max.x, y: bar_bottom } },
        separator: Rectangle {
            min: Point { x: r.min.x, y: bar_bottom },
            max: Point { x: r.max.x, y: line_bottom },
        },
        image: Rectangle { min: Point { x: r.min.x, y: line_bottom }, max: r.max },
    }
}

/// Places the top bar, the separator and the document area in `r`.
pub fn layout(r: Rectangle, small_height: i32, thickness: i32) -> (l: Layout)
    requires
        layout_fits(r, small_height, thickness),
    ensures
        l == layout_of(r, small_height, thickness),
{
    let (small_thickness, big_thickness) = halves(thickness);
    let bar_bottom = r.min.y + small_height - small_thickness;
    let line_bottom = r.min.y + small_height + big_thickness;
    Layout {
        top_bar: rect(r.min.x, r.min.y, r.max.x, bar_bottom),
        separator: rect(r.min.x, bar_bottom, r.max.x, line_bottom),
        image: rect(r.min.x, line_bottom, r.max.x, r.max.y),
    }
}

/// The direction of a page turn.
#[derive(Clone, Copy, Debug, PartialEq, Eq, Structural)]
pub enum CycleDir {
    Previous,
    Next,
}

/// The direction of a swipe.
#[derive(Clone, Copy, Debug, PartialEq, Eq, Structural)]
pub enum Dir {
    North,
    East,
    South,
    West,
}

/// The device buttons.
#[derive(Clone, Copy, Debug, PartialEq, Eq, Structural)]
pub enum ButtonCode {
    Backward,
    Forward,
    Other,
}

/// What happened to a button.
#[derive(Clone, Copy, Debug, PartialEq, Eq, Structural)]
pub enum ButtonStatus {
    Pressed,
    Released,
    Repeated,
}

/// The views that a menu event names.
#[derive(Clone, Copy, Debug, PartialEq, Eq, Structural)]
pub enum ViewId {
    MainMenu,
    BatteryMenu,
    ClockMenu,
    Other,
}

/// The events that reach the translation view.
#[derive(Debug)]
pub enum Event {
    /// The worker's HTML is ready.
    TranslationReady(String),
    /// Turn a page.
    Page(CycleDir),
    /// A swipe that started at `start`.
    Swipe { dir: Dir, start: Point, end: Point },
    /// A device button.
    Button { code: ButtonCode, status: ButtonStatus },
    /// A tap at a point.
    Tap(Point),
    /// Open or close a menu near a rectangle.
    ToggleNear(ViewId, Rectangle),
    /// The screen needs a full refresh.
    Reseed,
    /// The close gesture.
    Cross(Point),
    /// Any other event.
    Other,
}

/// A position in the document, as the document resolves it.
#[derive(Clone, Copy, Debug, PartialEq, Eq, Structural)]
pub enum Location {
    /// The page at this location.
    Exact(usize),
    /// The page before the one at this location.
    Previous(usize),
    /// The page after the one at this location.
    Next(usize),
}

/// The menus that the view opens.
#[derive(Clone, Copy, Debug, PartialEq, Eq, Structural)]
pub enum Menu {
    Main,
    Battery,
    Clock,
}

/// What the view asks its host to do for an event.
#[derive(Debug)]
pub enum Command {
    /// Load this HTML in the document and show it from its start.
    Show(String),
    /// Turn to the neighbouring page; when there is none and `back_if_stuck`
    /// holds, leave the view.
    Turn { dir: CycleDir, back_if_stuck: bool },
    /// Open or close a menu near a rectangle.
    ToggleMenu(Menu, Rectangle),
    /// Refresh the top bar and the whole view.
    Reseed,
    /// Leave the view.
    Back,
}

/// How the screen is refreshed.
#[derive(Clone, Copy, Debug, PartialEq, Eq, Structural)]
pub enum UpdateMode {
    Gui,
    Full,
}

/// A request to redraw a view's rectangle.
#[derive(Clone, Copy, Debug, PartialEq, Eq, Structural)]
pub struct RenderRequest {
    pub id: u64,
    pub rect: Rectangle,
    pub mode: UpdateMode,
}

/// The view that shows a translation page by page: its place on the screen
/// and the location of the page it shows.
#[derive(Debug)]
pub struct Translation {
    id: u64,
    rect: Rectangle,
    location: usize,
}

/// The width of the view fits an `i32` when a tap in it asks for its half.
pub open spec fn tap_fits(r: Rectangle, evt: Event) -> bool {
    match evt {
        Event::Tap(center) => r.contains(center) ==> r.max.x - r.min.x <= i32::MAX,
        _ => true,
    }
}

/// A tap on the left half of the view turns back, elsewhere forward.
pub open spec fn tap_turn(r: Rectangle, center: Point) -> CycleDir {
    if center.x - r.min.x < (r.max.x - r.min.x) / 2 {
        CycleDir::Previous
    } else {
        CycleDir::Next
    }
}

impl Translation {
    /// The identifier of the view.
    pub closed spec fn spec_id(&self) -> u64 {
        self.id
    }

    /// The rectangle of the view.
    pub closed spec fn spec_rect(&self) -> Rectangle {
        self.rect
    }

    /// The location of the page the view shows.
    pub closed spec fn spec_location(&self) -> usize {
        self.location
    }

    /// Opens a view in `rect` on a translation of `query`, at the start of
    /// its document. Gives what the host does next: place the top bar (of
    /// `small_height` pixels), the separator (of `thickness` pixels) and the
    /// document; show the pending message; redraw the view; turn the wifi on
    /// when the reader is offline; and start the worker on the query, from the
    /// book's language when it names a provider code, else from the
    /// configured source, to the configured target.
    pub fn new(
        id: u64,
        rect: Rectangle,
        small_height: i32,
        thickness: i32,
        query: &str,
        language: &str,
        settings: &TranslationSettings,
        online: bool,
    ) -> (res: (Translation, Opening))
        requires
            page_fits(rect, small_height, thickness),
        ensures
            res.0.spec_id() == id,
            res.0.spec_rect() == rect,
            res.0.spec_location() == 0,
            res.1.layout == layout_of(rect, small_height, thickness),
            res.1.title@ == "Translation"@,
            res.1.separator_gray == BLACK,
            res.1.page_width == crate::geom::as_u32(
                layout_of(rect, small_height, thickness).image.max.x - layout_of(
                    rect,
                    small_height,
                    thickness,
                ).image.min.x,
            ),
            res.1.page_height == crate::geom::as_u32(
                layout_of(rect, small_height, thickness).image.max.y - layout_of(
                    rect,
                    small_height,
                    thickness,
                ).image.min.y,
            ),
            res.1.redraw == (RenderRequest { id, rect, mode: UpdateMode::Gui }),
            res.1.ask_wifi == !online,
            res.1.pending@ == pending_content(),
            res.1.job.query@ == query@,
            res.1.job.source@ == match translator::language_code(language@) {
                Some(code) => code,
                None => settings.source@,
            },
            res.1.job.target@ == settings.target@,
            res.1.job.provider == settings.provider,
    {
        let parts = layout(rect, small_height, thickness);
        let mut pending = String::new();
        pending.append("<p class=\"info\">Translating\u{2026}</p>");
        let job = TranslationJob {
            query: query.to_owned(),
            source: source_language(language, settings.source.as_str()),
            target: settings.target.clone(),
            provider: settings.provider,
        };
        let page_width = parts.image.width();
        let page_height = parts.image.height();
        let mut title = String::new();
        title.append("Translation");
        let opening = Opening {
            layout: parts,
            title,
            separator_gray: BLACK,
            page_width,
            page_height,
            redraw: RenderRequest { id, rect, mode: UpdateMode::Gui },
            ask_wifi: !online,
            pending,
            job,
        };
        (Translation { id, rect, location: 0 }, opening)
    }

    /// The identifier of the view.
    pub fn id(&self) -> (r: u64)
        ensures
            r == self.spec_id(),
    {
        self.id
    }

    /// The rectangle of the view.
    pub fn rect(&self) -> (r: Rectangle)
        ensures
            r == self.spec_rect(),
    {
        self.rect
    }

    /// The location of the page the view shows.
    pub fn location(&self) -> (r: usize)
        ensures
            r == self.spec_location(),
    {
        self.location
    }

    /// The page to draw: the one at the view's location.
    pub fn render_target(&self) -> (r: Location)
        ensures
            r == Location::Exact(self.spec_location()),
    {
        Location::Exact(self.location)
    }

    /// Takes the location of the page that the document drew, if it drew one.
    pub fn render_content(&mut self, drawn: Option<usize>)
        ensures
            final(self).spec_id() == old(self).spec_id(),
            final(self).spec_rect() == old(self).spec_rect(),
            final(self).spec_location() == match drawn {
                Some(loc) => loc,
                None => old(self).spec_location(),
            },
    {
        if let Some(loc) = drawn {
            self.location = loc;
        }
    }

    /// The location that the document resolves to find the neighbouring page.
    pub fn neighbor(&self, dir: CycleDir) -> (r: Location)
        ensures
            r == match dir {
                CycleDir::Previous => Location::Previous(self.spec_location()),
                CycleDir::Next => Location::Next(self.spec_location()),
            },
    {
        match dir {
            CycleDir::Previous => Location::Previous(self.location),
            CycleDir::Next => Location::Next(self.location),
        }
    }

    /// Moves to the neighbouring page that the document resolved, if there is
    /// one; tells whether the view moved, so that its host draws the page.
    pub fn go_to_neighbor(&mut self, resolved: Option<usize>) -> (moved: bool)
        ensures
            moved == resolved is Some,
            final(self).spec_id() == old(self).spec_id(),
            final(self).spec_rect() == old(self).spec_rect(),
            final(self).spec_location() == match resolved {
                Some(loc) => loc,
                None => old(self).spec_location(),
            },
    {
        match resolved {
            Some(loc) => {
                self.location = loc;
                true
            },
            None => false,
        }
    }

    /// The redraw that a reseed asks for, after the top bar is reseeded.
    pub fn reseed(&self) -> (r: RenderRequest)
        ensures
            r == (RenderRequest { id: self.spec_id(), rect: self.spec_rect(), mode: UpdateMode::Gui }),
    {
        RenderRequest { id: self.id, rect: self.rect, mode: UpdateMode::Gui }
    }

    /// Moves the view to `r`: gives the new places of its three parts, the
    /// page size the document is laid out to, the rectangle the further parts
    /// (the menus) take, and the full redraw that follows.
    pub fn resize(&mut self, r: Rectangle, small_height: i32, thickness: i32) -> (res: Resizing)
        requires
            page_fits(r, small_height, thickness),
        ensures
            res.layout == layout_of(r, small_height, thickness),
            res.page_width == crate::geom::as_u32(
                layout_of(r, small_height, thickness).image.max.x - layout_of(
                    r,
                    small_height,
                    thickness,
                ).image.min.x,
            ),
            res.page_height == crate::geom::as_u32(
                layout_of(r, small_height, thickness).image.max.y - layout_of(
                    r,
                    small_height,
                    thickness,
                ).image.min.y,
            ),
            res.others == r,
            res.redraw == (RenderRequest { id: old(self).spec_id(), rect: r, mode: UpdateMode::Full }),
            final(self).spec_id() == old(self).spec_id(),
            final(self).spec_rect() == r,
            final(self).spec_location() == old(self).spec_location(),
    {
        let parts = layout(r, small_height, thickness);
        let page_width = parts.image.width();
        let page_height = parts.image.height();
        self.rect = r;
        Resizing {
            layout: parts,
            page_width,
            page_height,
            others: r,
            redraw: RenderRequest { id: self.id, rect: r, mode: UpdateMode::Full },
        }
    }

    /// Decides what an event does: whether the view handles it, and what it
    /// asks its host to do. Only a new translation moves the view, back to
    /// the start of the document.
    pub fn handle_event(&mut self, evt: &Event) -> (res: (bool, Option<Command>))
        requires
            tap_fits(old(self).spec_rect(), *evt),
        ensures
            final(self).spec_id() == old(self).spec_id(),
            final(self).spec_rect() == old(self).spec_rect(),
            final(self).spec_location() == match evt {
                Event::TranslationReady(_) => 0,
                _ => old(self).spec_location(),
            },
            match evt {
                Event::TranslationReady(content) => res.0 && (res.1 matches Some(Command::Show(c))
                    && c@ == content@),
                Event::Page(dir) => res.0 && (res.1 matches Some(
                    Command::Turn { dir: d, back_if_stuck: false },
                ) && d == *dir),
                Event::Swipe { dir, start, .. } => if old(self).spec_rect().contains(*start) {
                    res.0 && match dir {
                        Dir::West => res.1 matches Some(
                            Command::Turn { dir: CycleDir::Next, back_if_stuck: false },
                        ),
                        Dir::East => res.1 matches Some(
                            Command::Turn { dir: CycleDir::Previous, back_if_stuck: false },
                        ),
                        _ => res.1 is None,
                    }
                } else {
                    !res.0 && res.1 is None
                },
                Event::Button { code, status } => if *status == ButtonStatus::Released {
                    res.0 && match code {
                        ButtonCode::Backward => res.1 matches Some(
                            Command::Turn { dir: CycleDir::Previous, back_if_stuck: true },
                        ),
                        ButtonCode::Forward => res.1 matches Some(
                            Command::Turn { dir: CycleDir::Next, back_if_stuck: true },
                        ),
                        ButtonCode::Other => res.1 is None,
                    }
                } else {
                    !res.0 && res.1 is None
                },
                Event::Tap(center) => if old(self).spec_rect().contains(*center) {
                    res.0 && (res.1 matches Some(Command::Turn { dir: d, back_if_stuck: false })
                        && d == tap_turn(old(self).spec_rect(), *center))
                } else {
                    !res.0 && res.1 is None
                },
                Event::ToggleNear(id, r) => match id {
                    ViewId::MainMenu => res.0 && res.1 == Some(Command::ToggleMenu(Menu::Main, *r)),
                    ViewId::BatteryMenu => res.0 && res.1 == Some(
                        Command::ToggleMenu(Menu::Battery, *r),
                    ),
                    ViewId::ClockMenu => res.0 && res.1 == Some(
                        Command::ToggleMenu(Menu::Clock, *r),
                    ),
                    ViewId::Other => !res.0 && res.1 is None,
                },
                Event::Reseed => res.0 && res.1 matches Some(Command::Reseed),
                Event::Cross(_) => res.0 && res.1 matches Some(Command::Back),
                Event::Other => !res.0 && res.1 is None,
            },
    {
        match evt {
            Event::TranslationReady(content) => {
                self.location = 0;
                (true, Some(Command::Show(content.clone())))
            },
            Event::Page(dir) => (true, Some(Command::Turn { dir: *dir, back_if_stuck: false })),
            Event::Swipe { dir, start, .. } => {
                if self.rect.includes(*start) {
                    match dir {
                        Dir::West => (
                            true,
                            Some(Command::Turn { dir: CycleDir::Next, back_if_stuck: false }),
                        ),
                        Dir::East => (
                            true,
                            Some(Command::Turn { dir: CycleDir::Previous, back_if_stuck: false }),
                        ),
                        _ => (true, None),
                    }
                } else {
                    (false, None)
                }
            },
            Event::Button { code, status } => {
                match status {
                    ButtonStatus::Released => match code {
                        ButtonCode::Backward => (
                            true,
                            Some(Command::Turn { dir: CycleDir::Previous, back_if_stuck: true }),
                        ),
                        ButtonCode::Forward => (
                            true,
                            Some(Command::Turn { dir: CycleDir::Next, back_if_stuck: true }),
                        ),
                        ButtonCode::Other => (true, None),
                    },
                    _ => (false, None),
                }
            },
            Event::Tap(center) => {
                if self.rect.includes(*center) {
                    let half_width = self.rect.width() / 2;
                    let offset = (center.x as i64 - self.rect.min.x as i64) as u32;
                    if offset < half_width {
                        (true, Some(Command::Turn { dir: CycleDir::Previous, back_if_stuck: false }))
                    } else {
                        (true, Some(Command::Turn { dir: CycleDir::Next, back_if_stuck: false }))
                    }
                } else {
                    (false, None)
                }
            },
            Event::ToggleNear(id, r) => match id {
                ViewId::MainMenu => (true, Some(Command::ToggleMenu(Menu::Main, *r))),
                ViewId::BatteryMenu => (true, Some(Command::ToggleMenu(Menu::Battery, *r))),
                ViewId::ClockMenu => (true, Some(Command::ToggleMenu(Menu::Clock, *r))),
                ViewId::Other => (false, None),
            },
            Event::Reseed => (true, Some(Command::Reseed)),
            Event::Cross(_) => (true, Some(Command::Back)),
            Event::Other => (false, None),
        }
    }
}

/// Reads the entities `&amp;`, `&lt;` and `&gt;` of an HTML text back as the
/// characters they stand for.
pub open spec fn unescaped(s: Seq<char>) -> Seq<char>
    decreases s.len(),
{
    if s.len() == 0 {
        Seq::empty()
    } else if s.len() >= 5 && s.take(5) == seq!['&', 'a', 'm', 'p', ';'] {
        seq!['&'] + unescaped(s.skip(5))
    } else if s.len() >= 4 && s.take(4) == seq!['&', 'l', 't', ';'] {
        seq!['<'] + unescaped(s.skip(4))
    } else if s.len() >= 4 && s.take(4) == seq!['&', 'g', 't', ';'] {
        seq!['>'] + unescaped(s.skip(4))
    } else {
        seq![s[0]] + unescaped(s.drop_first())
    }
}

/// Escaping a text escapes its two parts one after the other.
pub proof fn lemma_escaped_concat(a: Seq<char>, b: Seq<char>)
    ensures
        escaped(a + b) == escaped(a) + escaped(b),
    decreases b.len(),
{
    if b.len() == 0 {
        assert(a + b =~= a);
        assert(escaped(a) + escaped(b) =~= escaped(a));
    } else {
        lemma_escaped_concat(a, b.drop_last());
        assert((a + b).drop_last() =~= a + b.drop_last());
        assert(escaped(a) + escaped(b.drop_last()) + escape_char(b.last()) =~= escaped(a) + (
        escaped(b.drop_last()) + escape_char(b.last())));
    }
}

proof fn lemma_unescaped_step(c: char, rest: Seq<char>)
    ensures
        unescaped(escape_char(c) + rest) == seq![c] + unescaped(rest),
{
    let s = escape_char(c) + rest;
    if c == '&' {
        assert(s.take(5) =~= seq!['&', 'a', 'm', 'p', ';']);
        assert(s.skip(5) =~= rest);
    } else if c == '<' {
        assert(s.take(4) =~= seq!['&', 'l', 't', ';']);
        assert(s.skip(4) =~= rest);
        assert(s.len() < 5 || s.take(5)[1] != 'a');
    } else if c == '>' {
        assert(s.take(4) =~= seq!['&', 'g', 't', ';']);
        assert(s.skip(4) =~= rest);
        assert(s.len() < 5 || s.take(5)[1] != 'a');
        assert(s.take(4)[1] != 'l');
    } else {
        assert(s[0] == c);
        assert(s.len() < 5 || s.take(5)[0] != '&');
        assert(s.len() < 4 || s.take(4)[0] != '&');
        assert(s.drop_first() =~= rest);
    }
}

/// Escaping loses nothing: the HTML text reads back as the original text.
pub proof fn lemma_escape_decodes(s: Seq<char>)
    ensures
        unescaped(escaped(s)) == s,
    decreases s.len(),
{
    if s.len() > 0 {
        lemma_escape_decodes(s.drop_first());
        lemma_escaped_concat(seq![s[0]], s.drop_first());
        assert(seq![s[0]] + s.drop_first() =~= s);
        assert(seq![s[0]].drop_last() =~= Seq::<char>::empty());
        assert(escaped(Seq::<char>::empty()) =~= Seq::<char>::empty());
        assert(seq![s[0]].last() == s[0]);
        assert(escaped(seq![s[0]]) =~= escape_char(s[0]));
        lemma_unescaped_step(s[0], escaped(s.drop_first()));
        assert(seq![s[0]] + s.drop_first() =~= s);
    }
}

/// Escaped text holds no markup: neither `<` nor `>` is left in it.
pub proof fn lemma_escaped_has_no_markup(s: Seq<char>)
    ensures
        forall|i: int| 0 <= i < escaped(s).len() ==> #[trigger] escaped(s)[i] != '<'
            && escaped(s)[i] != '>',
    decreases s.len(),
{
    if s.len() > 0 {
        lemma_escaped_has_no_markup(s.drop_last());
        let e = escaped(s);
        let p = escaped(s.drop_last());
        assert forall|i: int| 0 <= i < e.len() implies #[trigger] e[i] != '<' && e[i] != '>' by {
            if i < p.len() {
                assert(e[i] == p[i]);
            } else {
                assert(e[i] == escape_char(s.last())[i - p.len()]);
            }
        }
    }
}

/// Every line of a text that is all white space is blank.
proof fn lemma_blank_lines(text: Seq<char>)
    requires
        crate::text::all_white_space(text),
    ensures
        forall|i: int|
            0 <= i < lines(text).len() ==> crate::text::all_white_space(#[trigger] lines(text)[i]),
    decreases text.len(),
{
    if text.len() > 0 {
        let init = text.drop_last();
        assert(crate::text::all_white_space(init)) by {
            assert forall|k: int| 0 <= k < init.len() implies #[trigger] crate::text::is_white_space(
                init[k],
            ) by {
                assert(crate::text::is_white_space(text[k]));
            }
        }
        lemma_blank_lines(init);
        lemma_lines_nonempty(init);
        assert(crate::text::is_white_space(text[text.len() - 1]));
        let ls = lines(text);
        assert forall|i: int| 0 <= i < ls.len() implies crate::text::all_white_space(
            #[trigger] ls[i],
        ) by {
            if text.last() != '\n' && i == lines(init).len() - 1 {
                let l = lines(init).last().push(text.last());
                assert(crate::text::all_white_space(lines(init)[i]));
                assert forall|k: int| 0 <= k < l.len() implies #[trigger] crate::text::is_white_space(
                    l[k],
                ) by {
                    if k < l.len() - 1 {
                        assert(crate::text::is_white_space(lines(init).last()[k]));
                    }
                }
            } else if i < lines(init).len() {
                assert(crate::text::all_white_space(lines(init)[i]));
            }
        }
    }
}

proof fn lemma_blank_paragraphs(ls: Seq<Seq<char>>)
    requires
        forall|i: int| 0 <= i < ls.len() ==> crate::text::all_white_space(#[trigger] ls[i]),
    ensures
        paragraphs(ls) == Seq::<char>::empty(),
    decreases ls.len(),
{
    if ls.len() > 0 {
        assert forall|i: int| 0 <= i < ls.drop_last().len() implies crate::text::all_white_space(
            #[trigger] ls.drop_last()[i],
        ) by {
            assert(crate::text::all_white_space(ls[i]));
        }
        lemma_blank_paragraphs(ls.drop_last());
        assert(crate::text::all_white_space(ls[ls.len() - 1]));
        crate::text::lemma_blank(ls.last());
        assert(paragraphs(ls) =~= Seq::<char>::empty());
    }
}

/// A translation whose text is all white space shows only the line that names
/// the two languages.
pub proof fn lemma_blank_translation_shows_languages(
    text: Seq<char>,
    source: Seq<char>,
    target: Seq<char>,
)
    requires
        crate::text::all_white_space(text),
    ensures
        content_of(text, source, target) == language_line(source, target),
{
    lemma_blank_lines(text);
    lemma_blank_paragraphs(lines(text));
    assert(language_line(source, target) + Seq::<char>::empty() =~= language_line(source, target));
}

/// What resizing a view asks of its host.
#[derive(Debug)]
pub struct Resizing {
    /// The new places of the top bar, the separator and the document.
    pub layout: Layout,
    /// The page width the document is laid out to.
    pub page_width: u32,
    /// The page height the document is laid out to.
    pub page_height: u32,
    /// The rectangle the further parts (the menus) take.
    pub others: Rectangle,
    /// The full redraw of the view.
    pub redraw: RenderRequest,
}

/// The message the view shows while the translation is under way.
pub open spec fn pending_content() -> Seq<char> {
    "<p class=\"info\">Translating\u{2026}</p>"@
}

/// The translation settings: the source language used when the book's does
/// not name one, the target language, and the provider.
pub struct TranslationSettings {
    pub source: String,
    pub target: String,
    pub provider: translator::TranslationProvider,
}

/// What the worker translates: the query, from `source` to `target`, by
/// `provider`.
#[derive(Debug)]
pub struct TranslationJob {
    pub query: String,
    pub source: String,
    pub target: String,
    pub provider: translator::TranslationProvider,
}

/// The gray level of black.
pub const BLACK: u8 = 0;

/// The laying out of a view in `r` fits `i32`, and so do the width and the
/// height of its document area.
pub open spec fn page_fits(r: Rectangle, small_height: i32, thickness: i32) -> bool {
    let image = layout_of(r, small_height, thickness).image;
    &&& layout_fits(r, small_height, thickness)
    &&& i32::MIN <= image.max.x - image.min.x <= i32::MAX
    &&& i32::MIN <= image.max.y - image.min.y <= i32::MAX
}

/// What opening a view asks of its host.
#[derive(Debug)]
pub struct Opening {
    /// The places of the top bar, the separator and the document.
    pub layout: Layout,
    /// The title of the top bar.
    pub title: String,
    /// The gray level of the separator line.
    pub separator_gray: u8,
    /// The page width the document is laid out to.
    pub page_width: u32,
    /// The page height the document is laid out to.
    pub page_height: u32,
    /// The first redraw of the view.
    pub redraw: RenderRequest,
    /// Whether to turn the wifi on.
    pub ask_wifi: bool,
    /// The HTML the document shows until the translation arrives.
    pub pending: String,
    /// The translation to start.
    pub job: TranslationJob,
}

/// The parts of a layout cover `r` from top to bottom, each as wide as `r`,
/// with no gap and no overlap.
pub open spec fn tiles(l: Layout, r: Rectangle) -> bool {
    &&& l.top_bar.min.x == r.min.x && l.top_bar.max.x == r.max.x
    &&& l.separator.min.x == r.min.x && l.separator.max.x == r.max.x
    &&& l.image.min.x == r.min.x && l.image.max.x == r.max.x
    &&& l.top_bar.min.y == r.min.y
    &&& l.top_bar.max.y == l.separator.min.y
    &&& l.separator.max.y == l.image.min.y
    &&& l.image.max.y == r.max.y
}

/// The top bar, the separator and the document tile the view's rectangle, as
/// the view is opened and after each resize; the separator is as thick as asked.
pub proof fn lemma_layout_tiles(r: Rectangle, small_height: i32, thickness: i32)
    requires
        layout_fits(r, small_height, thickness),
    ensures
        tiles(layout_of(r, small_height, thickness), r),
        layout_of(r, small_height, thickness).separator.max.y - layout_of(
            r,
            small_height,
            thickness,
        ).separator.min.y == thickness,
        layout_of(r, small_height, thickness).top_bar.max.y - r.min.y == small_height
            - crate::geom::half_toward_zero(thickness as int),
        layout_of(r, small_height, thickness).separator.max.y - r.min.y == small_height + (
        thickness - crate::geom::half_toward_zero(thickness as int)),
{
}

/// One step of a host that holds the view and the places of its parts: after
/// `handle_event`, `go_to_neighbor` or `render_content` the view keeps its id
/// and rectangle and the host its parts; after `resize` the view keeps its id
/// and the host takes the places that `resize` gives for the new rectangle.
pub open spec fn host_step(a: (Translation, Layout), b: (Translation, Layout), small_height: i32, thickness: i32) -> bool {
    &&& b.0.spec_id() == a.0.spec_id()
    &&& ((b.0.spec_rect() == a.0.spec_rect() && b.1 == a.1) || (page_fits(
        b.0.spec_rect(),
        small_height,
        thickness,
    ) && b.1 == layout_of(b.0.spec_rect(), small_height, thickness)))
}

/// From its opening on, whatever events, page turns, redraws and resizes
/// follow, the view keeps the id of its first redraw, and the top bar, the
/// separator and the document tile the view's rectangle as opening and
/// resizing lay them out.
pub proof fn lemma_host_trace(trace: Seq<(Translation, Layout)>, small_height: i32, thickness: i32)
    requires
        trace.len() >= 1,
        page_fits(trace[0].0.spec_rect(), small_height, thickness),
        trace[0].1 == layout_of(trace[0].0.spec_rect(), small_height, thickness),
        forall|i: int|
            0 <= i < trace.len() - 1 ==> host_step(
                #[trigger] trace[i],
                trace[i + 1],
                small_height,
                thickness,
            ),
    ensures
        forall|i: int|
            0 <= i < trace.len() ==> {
                &&& (#[trigger] trace[i]).0.spec_id() == trace[0].0.spec_id()
                &&& trace[i].1 == layout_of(trace[i].0.spec_rect(), small_height, thickness)
                &&& page_fits(trace[i].0.spec_rect(), small_height, thickness)
                &&& tiles(trace[i].1, trace[i].0.spec_rect())
            },
    decreases trace.len(),
{
    if trace.len() > 1 {
        let init = trace.drop_last();
        assert forall|i: int| 0 <= i < init.len() - 1 implies host_step(
            #[trigger] init[i],
            init[i + 1],
            small_height,
            thickness,
        ) by {
            assert(host_step(trace[i], trace[i + 1], small_height, thickness));
        }
        lemma_host_trace(init, small_height, thickness);
        let n = trace.len() - 1;
        assert(init[n - 1] == trace[n - 1]);
        assert(host_step(trace[n - 1], trace[n], small_height, thickness));
    }
    assert forall|i: int| 0 <= i < trace.len() implies tiles(trace[i].1, trace[i].0.spec_rect()) by {
        if trace.len() > 1 && i < trace.len() - 1 {
            assert(trace.drop_last()[i] == trace[i]);
        }
        lemma_layout_tiles(trace[i].0.spec_rect(), small_height, thickness);
    }
    assert forall|i: int| 0 <= i < trace.len() implies {
        &&& (#[trigger] trace[i]).0.spec_id() == trace[0].0.spec_id()
        &&& trace[i].1 == layout_of(trace[i].0.spec_rect(), small_height, thickness)
        &&& page_fits(trace[i].0.spec_rect(), small_height, thickness)
    } by {
        if trace.len() > 1 && i < trace.len() - 1 {
            assert(trace.drop_last()[i] == trace[i]);
        }
    }
}

/// A tap turns by the column it falls in: two taps in the view at the same
/// `x` turn the same way, whatever their heights, and a tap turns back exactly
/// when it falls left of the middle column, `x - min.x < width / 2`.
pub proof fn lemma_tap_turns_by_column(r: Rectangle, a: Point, b: Point)
    requires
        r.contains(a),
        r.contains(b),
        a.x == b.x,
    ensures
        tap_turn(r, a) == tap_turn(r, b),
        (tap_turn(r, a) == CycleDir::Previous) == (a.x - r.min.x < (r.max.x - r.min.x) / 2),
        (tap_turn(r, a) == CycleDir::Next) == (a.x - r.min.x >= (r.max.x - r.min.x) / 2),
{
}

/// Which failed attempts the worker tries again: a network failure of the
/// connection itself (input/output, time-out, connection, host name) while
/// less than 45 s went by, and nothing else.
pub proof fn lemma_retry_rule(
    failure: translator::NetworkFailure,
    message: String,
    err: translator::TranslateError,
    elapsed_ms: u64,
)
    ensures
        retried(translator::TranslateError::Network { failure, message }, elapsed_ms) == (
        failure != translator::NetworkFailure::Other && elapsed_ms < 45000),
        retried(
            translator::TranslateError::Network {
                failure: translator::NetworkFailure::ConnectionFailed,
                message,
            },
            elapsed_ms,
        ) == (elapsed_ms < 45000),
        err is InvalidJson || err is UnexpectedResponse ==> !retried(err, elapsed_ms),
        elapsed_ms >= 45000 ==> !retried(err, elapsed_ms),
{
}

/// The text that `lines` splits back together: the lines joined with line
/// feeds.
pub open spec fn joined_lines(ls: Seq<Seq<char>>) -> Seq<char>
    decreases ls.len(),
{
    if ls.len() <= 1 {
        if ls.len() == 1 {
            ls[0]
        } else {
            Seq::empty()
        }
    } else {
        joined_lines(ls.drop_last()) + seq!['\n'] + ls.last()
    }
}

proof fn lemma_joined_lines_extend(ls: Seq<Seq<char>>, c: char)
    requires
        ls.len() >= 1,
    ensures
        joined_lines(ls.update(ls.len() - 1, ls.last().push(c))) == joined_lines(ls).push(c),
{
    let up = ls.update(ls.len() - 1, ls.last().push(c));
    if ls.len() == 1 {
    } else {
        assert(up.drop_last() =~= ls.drop_last());
        assert(joined_lines(ls.drop_last()) + seq!['\n'] + ls.last().push(c) =~= (joined_lines(
            ls.drop_last(),
        ) + seq!['\n'] + ls.last()).push(c));
    }
}

/// Splitting a text at its line feeds loses nothing: no line holds a line
/// feed, and the lines joined with line feeds give the text back.
pub proof fn lemma_lines_rejoin(s: Seq<char>)
    ensures
        joined_lines(lines(s)) == s,
        forall|i: int, k: int|
            0 <= i < lines(s).len() && 0 <= k < lines(s)[i].len() ==> #[trigger] lines(s)[i][k]
                != '\n',
    decreases s.len(),
{
    if s.len() > 0 {
        let t = s.drop_last();
        lemma_lines_rejoin(t);
        lemma_lines_nonempty(t);
        let l = lines(t);
        if s.last() == '\n' {
            assert(l.push(Seq::<char>::empty()).drop_last() =~= l);
            assert(joined_lines(l) + seq!['\n'] + Seq::<char>::empty() =~= s);
            assert forall|i: int, k: int|
                0 <= i < lines(s).len() && 0 <= k < lines(s)[i].len() implies #[trigger] lines(
                s,
            )[i][k] != '\n' by {
                assert(i < l.len());
                assert(lines(s)[i] == l[i]);
            }
        } else {
            lemma_joined_lines_extend(l, s.last());
            assert(t.push(s.last()) =~= s);
            assert forall|i: int, k: int|
                0 <= i < lines(s).len() && 0 <= k < lines(s)[i].len() implies #[trigger] lines(
                s,
            )[i][k] != '\n' by {
                if i < l.len() - 1 {
                    assert(lines(s)[i] == l[i]);
                } else {
                    assert(lines(s)[i] == l.last().push(s.last()));
                    if k < l.last().len() {
                        assert(lines(s)[i][k] == l[l.len() - 1][k]);
                    }
                }
            }
        }
    } else {
        assert(lines(s) =~= seq![Seq::<char>::empty()]);
    }
}

/// A paragraph holds its whole line: `<p>`, the escaped line, `</p>` and a
/// line feed, and its inside reads back as the line.
pub proof fn lemma_paragraph_holds_line(line: Seq<char>)
    ensures
        paragraph(line).len() == escaped(line).len() + 8,
        paragraph(line).take(3) == seq!['<', 'p', '>'],
        paragraph(line).skip(paragraph(line).len() - 5) == seq!['<', '/', 'p', '>', '\n'],
        unescaped(paragraph(line).subrange(3, paragraph(line).len() - 5)) == line,
{
    reveal_strlit("<p>");
    reveal_strlit("</p>\n");
    let p = paragraph(line);
    let e = escaped(line);
    assert(p.take(3) =~= seq!['<', 'p', '>']);
    assert(p.skip(p.len() - 5) =~= seq!['<', '/', 'p', '>', '\n']);
    assert(p.subrange(3, p.len() - 5) =~= e);
    lemma_escape_decodes(line);
}

/// The paragraphs of two runs of lines are the paragraphs of the first run
/// then those of the second.
pub proof fn lemma_paragraphs_concat(a: Seq<Seq<char>>, b: Seq<Seq<char>>)
    ensures
        paragraphs(a + b) == paragraphs(a) + paragraphs(b),
    decreases b.len(),
{
    if b.len() == 0 {
        assert(a + b =~= a);
        assert(paragraphs(a) + paragraphs(b) =~= paragraphs(a));
    } else {
        lemma_paragraphs_concat(a, b.drop_last());
        assert((a + b).drop_last() =~= a + b.drop_last());
        assert((a + b).last() == b.last());
        let tail = if crate::text::trimmed(b.last()).len() == 0 {
            Seq::<char>::empty()
        } else {
            paragraph(b.last())
        };
        assert(paragraphs(a) + paragraphs(b.drop_last()) + tail =~= paragraphs(a) + (paragraphs(
            b.drop_last(),
        ) + tail));
    }
}

/// One line gives its paragraph when it is not blank, and nothing when it is.
pub proof fn lemma_paragraphs_one(line: Seq<char>)
    ensures
        crate::text::trimmed(line).len() != 0 ==> paragraphs(seq![line]) == paragraph(line),
        crate::text::trimmed(line).len() == 0 ==> paragraphs(seq![line]).len() == 0,
{
    assert(seq![line].drop_last() =~= Seq::<Seq<char>>::empty());
    assert(seq![line].last() == line);
    assert(paragraphs(Seq::<Seq<char>>::empty()) =~= Seq::<char>::empty());
    assert(Seq::<char>::empty() + paragraph(line) =~= paragraph(line));
    assert(Seq::<char>::empty() + Seq::<char>::empty() =~= Seq::<char>::empty());
}

/// The failure page holds the whole description: the fixed start and end of
/// the message around the escaped description, which reads back as given.
pub proof fn lemma_failure_content_holds_message(message: Seq<char>)
    ensures
        ({
            let c = failure_content(message);
            let start = "<p class=\"info\">Can't translate: "@;
            let end = ".</p>"@;
            &&& c.len() == start.len() + escaped(message).len() + end.len()
            &&& c.take(start.len() as int) == start
            &&& c.skip(c.len() - end.len()) == end
            &&& unescaped(c.subrange(start.len() as int, c.len() - end.len())) == message
        }),
{
    let c = failure_content(message);
    let start = "<p class=\"info\">Can't translate: "@;
    let end = ".</p>"@;
    assert(c.take(start.len() as int) =~= start);
    assert(c.skip(c.len() - end.len()) =~= end);
    assert(c.subrange(start.len() as int, c.len() - end.len()) =~= escaped(message));
    lemma_escape_decodes(message);
}

/// The language line names both languages whole: after `<p class="info">`
/// come the escaped source, ` → `, the escaped target and `</p>` with a line
/// feed, and the two names read back as given.
pub proof fn lemma_language_line_names_both(source: Seq<char>, target: Seq<char>)
    ensures
        ({
            let l = language_line(source, target);
            let start = seq!['<', 'p', ' ', 'c', 'l', 'a', 's', 's', '=', '"', 'i', 'n', 'f', 'o', '"', '>'];
            let arrow = seq![' ', '\u{2192}', ' '];
            let end = seq!['<', '/', 'p', '>', '\n'];
            let a = start.len() as int;
            let b = a + escaped(source).len();
            let c = b + arrow.len();
            let d = c + escaped(target).len();
            &&& l.len() == d + end.len()
            &&& l.take(a) == start
            &&& unescaped(l.subrange(a, b)) == source
            &&& l.subrange(b, c) == arrow
            &&& unescaped(l.subrange(c, d)) == target
            &&& l.skip(d) == end
        }),
{
    reveal_strlit("<p class=\"info\">");
    reveal_strlit(" \u{2192} ");
    reveal_strlit("</p>\n");
    let l = language_line(source, target);
    let start = seq!['<', 'p', ' ', 'c', 'l', 'a', 's', 's', '=', '"', 'i', 'n', 'f', 'o', '"', '>'];
    let arrow = seq![' ', '\u{2192}', ' '];
    let end = seq!['<', '/', 'p', '>', '\n'];
    assert("<p class=\"info\">"@ =~= start);
    assert(" \u{2192} "@ =~= arrow);
    assert("</p>\n"@ =~= end);
    let a = start.len() as int;
    let b = a + escaped(source).len();
    let c = b + arrow.len();
    let d = c + escaped(target).len();
    assert(l.take(a) =~= start);
    assert(l.subrange(a, b) =~= escaped(source));
    assert(l.subrange(b, c) =~= arrow);
    assert(l.subrange(c, d) =~= escaped(target));
    assert(l.skip(d) =~= end);
    lemma_escape_decodes(source);
    lemma_escape_decodes(target);
}

/// The page of a translation starts with the language line and then holds
/// the paragraphs of the text's lines, in order; the language line names the
/// detected source language when the provider reported one.
pub proof fn lemma_content_layout(t: translator::Translation, source: Seq<char>, target: Seq<char>)
    ensures
        ({
            let shown = shown_source(t, source);
            let c = content_of(t.text@, shown, target);
            let head = language_line(shown, target);
            &&& c.take(head.len() as int) == head
            &&& c.skip(head.len() as int) == paragraphs(lines(t.text@))
        }),
        t.detected_source matches Some(d) ==> shown_source(t, source) == d@,
        t.detected_source is None ==> shown_source(t, source) == source,
{
    let shown = shown_source(t, source);
    let c = content_of(t.text@, shown, target);
    let head = language_line(shown, target);
    assert(c.take(head.len() as int) =~= head);
    assert(c.skip(head.len() as int) =~= paragraphs(lines(t.text@)));
}

} // verus!
