//! The dialog that lists the session's messages.
//!
//! Messages wrap at the dialog's width by what is seen as one character. The
//! dialog follows the end of the list until it is scrolled away from it. The
//! caller sanitizes the messages, draws the frame and what is laid out here.

use unicode_segmentation::UnicodeSegmentation;
use unicode_width::UnicodeWidthStr;
use vstd::prelude::*;

verus! {

pub const MAX_WIDTH: u16 = 80;

pub const MAX_HEIGHT: u16 = 30;

/// The columns that a message's marker takes.
pub const MARKER_WIDTH: usize = 3;

#[derive(Clone, Copy, Debug, PartialEq, Eq, Structural)]
pub enum MessageKind {
    Info,
    Error,
}

#[derive(Debug, PartialEq, Eq)]
pub struct Message {
    pub kind: MessageKind,
    pub text: String,
}

// ---------------------------------------------------------------------------
// Clusters

/// The extended grapheme clusters of a text, as
/// `unicode_segmentation::UnicodeSegmentation::graphemes` gives them.
pub uninterp spec fn grapheme_clusters(text: Seq<char>) -> Seq<Seq<char>>;

/// The columns that a text takes, as `unicode_width::UnicodeWidthStr::width`
/// gives them.
pub uninterp spec fn display_width(text: Seq<char>) -> usize;

pub open spec fn joined(parts: Seq<Seq<char>>) -> Seq<char>
    decreases parts.len(),
{
    if parts.len() == 0 {
        seq![]
    } else {
        joined(parts.drop_last()) + parts.last()
    }
}

pub open spec fn words(lines: Seq<String>) -> Seq<Seq<char>> {
    lines.map_values(|line: String| line@)
}

/// `unicode_segmentation::UnicodeSegmentation::graphemes` with extended clusters:
/// consecutive parts of the text, none of them empty, that make up the whole
/// text. Where they part goes by the name `grapheme_clusters`.
#[verifier::external_body]
fn graphemes(text: &str) -> (r: Vec<String>)
    ensures
        words(r@) == grapheme_clusters(text@),
        joined(words(r@)) == text@,
        forall|i: int| 0 <= i < r@.len() ==> (#[trigger] r@[i])@.len() > 0,
{
    text.graphemes(true).map(String::from).collect()
}

/// `unicode_width::UnicodeWidthStr::width`: the result depends on the text alone
/// and goes by the name `display_width`.
#[verifier::external_body]
fn columns(text: &str) -> (r: usize)
    ensures
        r == display_width(text@),
{
    UnicodeWidthStr::width(text)
}

/// What is seen as one character, with the columns that it takes.
#[derive(Debug)]
pub struct Cluster {
    pub text: String,
    pub width: usize,
}

pub struct Piece {
    pub text: Seq<char>,
    pub width: usize,
}

impl View for Cluster {
    type V = Piece;

    open spec fn view(&self) -> Piece {
        Piece { text: self.text@, width: self.width }
    }
}

pub open spec fn pieces(clusters: Seq<Cluster>) -> Seq<Piece> {
    clusters.map_values(|cluster: Cluster| cluster@)
}

pub open spec fn pieces_of(text: Seq<char>) -> Seq<Piece> {
    grapheme_clusters(text).map_values(
        |cluster: Seq<char>| Piece { text: cluster, width: display_width(cluster) },
    )
}

pub open spec fn spelled(row: Seq<Piece>) -> Seq<char>
    decreases row.len(),
{
    if row.len() == 0 {
        seq![]
    } else {
        spelled(row.drop_last()) + row.last().text
    }
}

/// A text in clusters.
pub fn measure(text: &str) -> (r: Vec<Cluster>)
    ensures
        pieces(r@) == pieces_of(text@),
        spelled(pieces(r@)) == text@,
        forall|i: int| 0 <= i < r@.len() ==> (#[trigger] r@[i])@.text.len() > 0,
{
    let parts = graphemes(text);
    let mut clusters: Vec<Cluster> = Vec::new();
    let mut i: usize = 0;
    proof {
        assert(words(parts@).take(0) =~= seq![]);
    }
    while i < parts.len()
        invariant
            words(parts@) == grapheme_clusters(text@),
            forall|k: int| 0 <= k < parts@.len() ==> (#[trigger] parts@[k])@.len() > 0,
            i <= parts.len(),
            clusters@.len() == i,
            forall|k: int|
                0 <= k < i ==> (#[trigger] clusters@[k])@ == (Piece {
                    text: parts@[k]@,
                    width: display_width(parts@[k]@),
                }),
            spelled(pieces(clusters@)) == joined(words(parts@).take(i as int)),
        decreases parts.len() - i,
    {
        let width: usize = columns(parts[i].as_str());
        let ghost before = clusters@;
        clusters.push(Cluster { text: parts[i].clone(), width });
        proof {
            assert(pieces(clusters@).drop_last() =~= pieces(before));
            assert(words(parts@).take(i + 1).drop_last() =~= words(parts@).take(i as int));
        }
        i += 1;
    }
    proof {
        assert(words(parts@).take(parts@.len() as int) =~= words(parts@));
        assert forall|k: int| 0 <= k < clusters@.len() implies pieces(clusters@)[k] == pieces_of(
            text@,
        )[k] by {
            assert(clusters@[k]@ == pieces(clusters@)[k]);
            assert(words(parts@)[k] == parts@[k]@);
        }
        assert(pieces(clusters@) =~= pieces_of(text@));
    }
    clusters
}

// ---------------------------------------------------------------------------
// Wrapping

pub open spec fn capped(n: int) -> usize {
    if n <= usize::MAX {
        n as usize
    } else {
        usize::MAX
    }
}

/// The columns that a row takes.
pub open spec fn used(row: Seq<Piece>) -> usize
    decreases row.len(),
{
    if row.len() == 0 {
        0
    } else {
        capped(used(row.drop_last()) + row.last().width)
    }
}

/// The piece no longer fits in the row, which shows something already.
pub open spec fn overflows(row: Seq<Piece>, piece: Piece, width: usize) -> bool {
    used(row) > 0 && capped(used(row) + piece.width) > width
}

/// The pieces in rows, each as full as it can be.
pub open spec fn rows_of(pieces: Seq<Piece>, width: usize) -> Seq<Seq<Piece>>
    decreases pieces.len(),
{
    if pieces.len() == 0 {
        seq![seq![]]
    } else {
        let before = rows_of(pieces.drop_last(), width);
        if overflows(before.last(), pieces.last(), width) {
            before.push(seq![pieces.last()])
        } else {
            before.drop_last().push(before.last().push(pieces.last()))
        }
    }
}

/// The lines that a text in pieces takes; without any width it takes one empty
/// line.
pub open spec fn wrapped(pieces: Seq<Piece>, width: usize) -> Seq<Seq<char>> {
    if width == 0 {
        seq![seq![]]
    } else {
        rows_of(pieces, width).map_values(|row: Seq<Piece>| spelled(row))
    }
}

proof fn lemma_rows_exist(pieces: Seq<Piece>, width: usize)
    ensures
        rows_of(pieces, width).len() > 0,
    decreases pieces.len(),
{
    if pieces.len() > 0 {
        lemma_rows_exist(pieces.drop_last(), width);
    }
}

/// Wraps a text that is already in clusters.
pub fn wrap_clusters(clusters: &Vec<Cluster>, width: usize) -> (r: Vec<String>)
    ensures
        words(r@) == wrapped(pieces(clusters@), width),
{
    let mut lines: Vec<String> = Vec::new();
    if width == 0 {
        lines.push(String::new());
        proof {
            assert(words(lines@) =~= seq![Seq::<char>::empty()]);
        }
        return lines;
    }
    let ghost all = pieces(clusters@);
    let mut line = String::new();
    let mut columns: usize = 0;
    let mut i: usize = 0;
    proof {
        assert(all.take(0) =~= seq![]);
        assert(line@ =~= seq![]);
        assert(rows_of(all.take(0), width).drop_last() =~= seq![]);
    }
    while i < clusters.len()
        invariant
            all == pieces(clusters@),
            width > 0,
            i <= clusters.len(),
            lines@.len() == rows_of(all.take(i as int), width).len() - 1,
            forall|k: int|
                0 <= k < lines@.len() ==> (#[trigger] lines@[k])@ == spelled(
                    rows_of(all.take(i as int), width)[k],
                ),
            line@ == spelled(rows_of(all.take(i as int), width).last()),
            columns == used(rows_of(all.take(i as int), width).last()),
        decreases clusters.len() - i,
    {
        let ghost before = rows_of(all.take(i as int), width);
        let ghost piece = all[i as int];
        proof {
            assert(all.take(i + 1).drop_last() =~= all.take(i as int));
            assert(all.take(i + 1).last() == piece);
            lemma_rows_exist(all.take(i as int), width);
            assert(seq![piece].drop_last() =~= seq![]);
            assert(before.last().push(piece).drop_last() =~= before.last());
        }
        let cluster_width: usize = clusters[i].width;
        if columns > 0 && columns.saturating_add(cluster_width) > width {
            lines.push(line);
            line = clusters[i].text.clone();
            columns = cluster_width;
            proof {
                assert(spelled(seq![piece]) =~= piece.text) by {
                    assert(spelled(Seq::<Piece>::empty()) =~= seq![]);
                }
                assert(used(seq![piece]) == piece.width) by {
                    assert(used(Seq::<Piece>::empty()) == 0);
                }
            }
        } else {
            line = line.concat(clusters[i].text.as_str());
            columns = columns.saturating_add(cluster_width);
        }
        i += 1;
    }
    lines.push(line);
    proof {
        assert(all.take(all.len() as int) =~= all);
        lemma_rows_exist(all, width);
        assert(words(lines@) =~= wrapped(all, width));
    }
    lines
}

/// Wraps a text at a width.
pub fn wrap(message: &str, width: usize) -> (r: Vec<String>)
    ensures
        words(r@) == wrapped(pieces_of(message@), width),
        width > 0 ==> joined(words(r@)) == message@,
        width > 0 && message@.len() > 0 ==> forall|i: int|
            0 <= i < r@.len() ==> (#[trigger] r@[i])@.len() > 0,
{
    let clusters = measure(message);
    let lines = wrap_clusters(&clusters, width);
    proof {
        let all = pieces(clusters@);
        if width > 0 {
            law_wrapping_loses_nothing(all, width);
        }
        if width > 0 && message@.len() > 0 {
            assert forall|k: int| 0 <= k < all.len() implies (#[trigger] all[k]).text.len() > 0 by {
                assert(clusters@[k]@ == all[k]);
            }
            assert forall|i: int| 0 <= i < lines@.len() implies (#[trigger] lines@[i])@.len()
                > 0 by {
                assert(words(lines@)[i] == lines@[i]@);
                law_no_line_is_empty(all, width, i);
            }
        }
    }
    lines
}

// ---------------------------------------------------------------------------
// Lines

#[derive(Debug, PartialEq, Eq)]
pub struct MessageLine {
    pub kind: MessageKind,
    pub text: String,
}

pub struct Line {
    pub kind: MessageKind,
    pub text: Seq<char>,
}

impl View for MessageLine {
    type V = Line;

    open spec fn view(&self) -> Line {
        Line { kind: self.kind, text: self.text@ }
    }
}

pub open spec fn lines(all: Seq<MessageLine>) -> Seq<Line> {
    all.map_values(|line: MessageLine| line@)
}

/// What stands before a message's line: a marker before the first one, and space
/// before the others.
pub open spec fn margin(kind: MessageKind, index: int) -> Seq<char> {
    if index > 0 {
        "   "@
    } else {
        match kind {
            MessageKind::Info => " • "@,
            MessageKind::Error => " ! "@,
        }
    }
}

/// A message's wrapped text as lines of the list.
pub open spec fn marked(kind: MessageKind, texts: Seq<Seq<char>>) -> Seq<Line> {
    Seq::new(texts.len(), |i: int| Line { kind, text: margin(kind, i) + texts[i] })
}

pub open spec fn body_width(width: usize) -> usize {
    if width >= MARKER_WIDTH {
        (width - MARKER_WIDTH) as usize
    } else {
        0
    }
}

/// All messages as lines of the list, in order.
pub open spec fn listed(messages: Seq<Message>, width: usize) -> Seq<Line>
    decreases messages.len(),
{
    if messages.len() == 0 {
        seq![]
    } else {
        let message = messages.last();
        listed(messages.drop_last(), width) + marked(
            message.kind,
            wrapped(pieces_of(message.text@), body_width(width)),
        )
    }
}

/// Appends a message's wrapped text to the list.
pub fn mark_lines(kind: MessageKind, texts: &Vec<String>, out: &mut Vec<MessageLine>)
    ensures
        lines(final(out)@) == lines(old(out)@) + marked(kind, words(texts@)),
{
    let mut i: usize = 0;
    proof {
        assert(lines(out@) =~= lines(old(out)@) + marked(kind, words(texts@)).take(0));
    }
    while i < texts.len()
        invariant
            i <= texts.len(),
            lines(out@) == lines(old(out)@) + marked(kind, words(texts@)).take(i as int),
        decreases texts.len() - i,
    {
        let start: &str = if i > 0 {
            "   "
        } else {
            match kind {
                MessageKind::Info => " • ",
                MessageKind::Error => " ! ",
            }
        };
        let text = start.to_owned().concat(texts[i].as_str());
        let ghost before = out@;
        out.push(MessageLine { kind, text });
        proof {
            let all = marked(kind, words(texts@));
            assert(words(texts@)[i as int] == texts@[i as int]@);
            assert(lines(out@) =~= lines(before).push(all[i as int]));
            assert(all.take(i + 1) =~= all.take(i as int).push(all[i as int]));
            assert(lines(out@) =~= lines(old(out)@) + all.take(i + 1));
        }
        i += 1;
    }
    proof {
        let all = marked(kind, words(texts@));
        assert(all.take(all.len() as int) =~= all);
    }
}

/// The lines of all messages at a dialog's width.
pub fn message_lines(messages: &Vec<Message>, width: usize) -> (r: Vec<MessageLine>)
    ensures
        lines(r@) == listed(messages@, width),
{
    let mut out: Vec<MessageLine> = Vec::new();
    let mut i: usize = 0;
    proof {
        assert(messages@.take(0) =~= seq![]);
        assert(lines(out@) =~= seq![]);
    }
    while i < messages.len()
        invariant
            i <= messages.len(),
            lines(out@) == listed(messages@.take(i as int), width),
        decreases messages.len() - i,
    {
        let texts = wrap(messages[i].text.as_str(), width.saturating_sub(MARKER_WIDTH));
        mark_lines(messages[i].kind, &texts, &mut out);
        proof {
            assert(messages@.take(i + 1).drop_last() =~= messages@.take(i as int));
        }
        i += 1;
    }
    proof {
        assert(messages@.take(messages@.len() as int) =~= messages@);
    }
    out
}

// ---------------------------------------------------------------------------
// The dialog

/// A rectangle of the screen.
#[derive(Clone, Copy, Debug, PartialEq, Eq, Structural)]
pub struct Area {
    pub x: u16,
    pub y: u16,
    pub width: u16,
    pub height: u16,
}

#[derive(Clone, Copy, Debug, PartialEq, Eq, Structural)]
pub enum KeyEventKind {
    Press,
    Repeat,
    Release,
}

/// The keys that mean something here.
#[derive(Clone, Copy, Debug, PartialEq, Eq, Structural)]
pub enum KeyCode {
    Esc,
    Char(char),
    Up,
    Down,
    PageUp,
    PageDown,
    Home,
    End,
    Other,
}

#[derive(Clone, Copy, Debug, PartialEq, Eq, Structural)]
pub struct KeyEvent {
    pub code: KeyCode,
    pub kind: KeyEventKind,
}

#[derive(Clone, Copy, Debug, PartialEq, Eq, Structural)]
pub enum MessagesAction {
    Stay,
    Close,
    Clear,
}

/// The rows for a title and for a footer.
pub open spec fn chrome(height: u16) -> (u16, u16) {
    (
        if height >= 2 {
            1
        } else {
            0
        },
        if height >= 3 {
            1
        } else {
            0
        },
    )
}

pub fn chrome_rows(height: u16) -> (r: (u16, u16))
    ensures
        r == chrome(height),
        r.0 + r.1 <= height,
{
    let header: u16 = if height >= 2 {
        1
    } else {
        0
    };
    let footer: u16 = if height >= 3 {
        1
    } else {
        0
    };
    (header, footer)
}

/// The rows left for messages.
pub open spec fn body_height(height: u16) -> usize {
    (height - chrome(height).0 - chrome(height).1) as usize
}

/// The columns and rows for messages in the dialog's inner area.
pub fn body_size(inner: Area) -> (r: (usize, usize))
    ensures
        r.0 == inner.width,
        r.1 == body_height(inner.height),
{
    let (header, footer): (u16, u16) = chrome_rows(inner.height);
    (inner.width as usize, (inner.height - header - footer) as usize)
}

#[derive(Clone, Copy, Debug, PartialEq, Eq, Structural)]
pub struct MessagesDialog {
    pub scroll: usize,
    pub follow_end: bool,
}

/// The last line at which the list can begin.
pub open spec fn furthest(total: usize, visible: usize) -> usize {
    if total >= visible {
        (total - visible) as usize
    } else {
        0
    }
}

/// What is drawn, from top to bottom: the title where there is a row for it, the
/// visible lines, and the footer where there is a row for it.
#[derive(Debug)]
pub struct Layout {
    pub header: u16,
    pub footer: u16,
    pub body_height: usize,
    pub visible: Vec<MessageLine>,
    /// The index of the first visible line among all.
    pub scroll: usize,
    pub total: usize,
}

impl Layout {
    /// A note stands in place of the list.
    pub fn shows_placeholder(&self) -> (r: bool)
        ensures
            r == (self.total == 0 && self.body_height > 0),
    {
        self.total == 0 && self.body_height > 0
    }
}

impl MessagesDialog {
    /// Follows the end, where it did so before.
    pub open spec fn settled(self, furthest: usize) -> Self {
        if self.follow_end {
            MessagesDialog { scroll: furthest, ..self }
        } else {
            self
        }
    }

    /// Begins `by` lines earlier, as far as there are any.
    pub open spec fn earlier(self, by: usize) -> Self {
        MessagesDialog {
            scroll: if self.scroll >= by {
                (self.scroll - by) as usize
            } else {
                0
            },
            follow_end: false,
        }
    }

    /// Begins `by` lines later, up to the end, which is then followed.
    pub open spec fn later(self, by: usize, furthest: usize) -> Self {
        if self.scroll + by >= furthest {
            MessagesDialog { scroll: furthest, follow_end: true }
        } else {
            MessagesDialog { scroll: (self.scroll + by) as usize, follow_end: false }
        }
    }

    /// What a pressed key makes of the dialog, and what is to be done.
    pub open spec fn pressed(self, code: KeyCode, total: usize, visible: usize) -> (
        Self,
        MessagesAction,
    ) {
        let end = furthest(total, visible);
        let page = if visible > 1 {
            visible
        } else {
            1
        };
        let now = self.settled(end);
        match code {
            KeyCode::Esc => (now, MessagesAction::Close),
            KeyCode::Char('q') => (now, MessagesAction::Close),
            KeyCode::Char('c') => (now, MessagesAction::Clear),
            KeyCode::Up => (now.earlier(1), MessagesAction::Stay),
            KeyCode::Char('k') => (now.earlier(1), MessagesAction::Stay),
            KeyCode::Down => (now.later(1, end), MessagesAction::Stay),
            KeyCode::Char('j') => (now.later(1, end), MessagesAction::Stay),
            KeyCode::PageUp => (now.earlier(page), MessagesAction::Stay),
            KeyCode::PageDown => (now.later(page, end), MessagesAction::Stay),
            KeyCode::Home => (
                MessagesDialog { scroll: 0, follow_end: false },
                MessagesAction::Stay,
            ),
            KeyCode::End => (
                MessagesDialog { scroll: end, follow_end: true },
                MessagesAction::Stay,
            ),
            _ => (now, MessagesAction::Stay),
        }
    }

    /// An open dialog that follows the end.
    pub fn open() -> (r: Self)
        ensures
            r == (MessagesDialog { scroll: 0, follow_end: true }),
    {
        MessagesDialog { scroll: 0, follow_end: true }
    }

    pub fn reset(&mut self)
        ensures
            *final(self) == (MessagesDialog { scroll: 0, follow_end: true }),
    {
        self.scroll = 0;
        self.follow_end = true;
    }

    fn move_earlier(&mut self, by: usize)
        ensures
            *final(self) == old(self).earlier(by),
    {
        self.follow_end = false;
        self.scroll = self.scroll.saturating_sub(by);
    }

    fn move_later(&mut self, by: usize, end: usize)
        ensures
            *final(self) == old(self).later(by, end),
    {
        let target: usize = self.scroll.saturating_add(by);
        self.scroll = if target < end {
            target
        } else {
            end
        };
        self.follow_end = self.scroll == end;
    }

    /// A key pressed while `total` lines are listed, `visible` of them at a time.
    pub fn navigate(&mut self, code: KeyCode, total: usize, visible: usize) -> (r: MessagesAction)
        ensures
            (*final(self), r) == old(self).pressed(code, total, visible),
    {
        let end: usize = total.saturating_sub(visible);
        let page: usize = if visible > 1 {
            visible
        } else {
            1
        };
        if self.follow_end {
            self.scroll = end;
        }
        match code {
            KeyCode::Esc | KeyCode::Char('q') => {
                return MessagesAction::Close;
            },
            KeyCode::Char('c') => {
                return MessagesAction::Clear;
            },
            KeyCode::Up | KeyCode::Char('k') => self.move_earlier(1),
            KeyCode::Down | KeyCode::Char('j') => self.move_later(1, end),
            KeyCode::PageUp => self.move_earlier(page),
            KeyCode::PageDown => self.move_later(page, end),
            KeyCode::Home => {
                self.follow_end = false;
                self.scroll = 0;
            },
            KeyCode::End => {
                self.follow_end = true;
                self.scroll = end;
            },
            _ => {},
        }
        MessagesAction::Stay
    }

    /// What a key event makes of the dialog while these messages are listed in its
    /// inner area, and what is to be done.
    pub open spec fn handled(self, key: KeyEvent, inner: Area, messages: Seq<Message>) -> (
        Self,
        MessagesAction,
    ) {
        if key.kind == KeyEventKind::Release {
            (self, MessagesAction::Stay)
        } else {
            self.pressed(
                key.code,
                listed(messages, inner.width as usize).len() as usize,
                body_height(inner.height),
            )
        }
    }

    /// A key event while these messages are listed in the dialog's inner area.
    /// Releasing a key means nothing.
    pub fn key(&mut self, key: KeyEvent, inner: Area, messages: &Vec<Message>) -> (r:
        MessagesAction)
        ensures
            (*final(self), r) == old(self).handled(key, inner, messages@),
    {
        if key.kind == KeyEventKind::Release {
            return MessagesAction::Stay;
        }
        let (width, visible): (usize, usize) = body_size(inner);
        let all = message_lines(messages, width);
        proof {
            assert(lines(all@).len() == all@.len());
        }
        self.navigate(key.code, all.len(), visible)
    }

    /// `after` and `layout` are what laying the messages out in the dialog's inner
    /// area leads to.
    pub open spec fn rendered(
        self,
        inner: Area,
        messages: Seq<Message>,
        after: Self,
        layout: Option<Layout>,
    ) -> bool {
        if inner.width == 0 || inner.height == 0 {
            layout is None && after == self
        } else {
            let all = listed(messages, inner.width as usize);
            let height = body_height(inner.height);
            let end = furthest(all.len() as usize, height);
            let scroll = if self.follow_end || self.scroll > end {
                end
            } else {
                self.scroll
            };
            &&& after == (MessagesDialog { scroll, ..self })
            &&& (layout matches Some(layout) && {
                &&& (layout.header, layout.footer) == chrome(inner.height)
                &&& layout.body_height == height
                &&& layout.scroll == scroll
                &&& layout.total == all.len()
                &&& lines(layout.visible@) == all.subrange(
                    scroll as int,
                    if scroll + height <= all.len() {
                        scroll + height
                    } else {
                        all.len() as int
                    },
                )
            })
        }
    }

    /// Lays the messages out in the dialog's inner area; nothing where it is
    /// empty.
    pub fn render(&mut self, inner: Area, messages: &Vec<Message>) -> (r: Option<Layout>)
        ensures
            old(self).rendered(inner, messages@, *final(self), r),
    {
        if inner.width == 0 || inner.height == 0 {
            return None;
        }
        let (header, footer): (u16, u16) = chrome_rows(inner.height);
        let (width, height): (usize, usize) = body_size(inner);
        let mut all = message_lines(messages, width);
        let total: usize = all.len();
        proof {
            assert(lines(all@).len() == all@.len());
        }
        let end: usize = total.saturating_sub(height);
        if self.follow_end || self.scroll > end {
            self.scroll = end;
        }
        let ghost listing = lines(all@);
        let mut visible = all.split_off(self.scroll);
        if visible.len() > height {
            visible.truncate(height);
        }
        proof {
            let stop = if self.scroll + height <= total {
                self.scroll + height
            } else {
                total as int
            };
            assert(lines(visible@) =~= listing.subrange(self.scroll as int, stop));
        }
        Some(
            Layout {
                header,
                footer,
                body_height: height,
                visible,
                scroll: self.scroll,
                total,
            },
        )
    }
}

// ---------------------------------------------------------------------------
// Laws

proof fn lemma_joined_push(parts: Seq<Seq<char>>, part: Seq<char>)
    ensures
        joined(parts.push(part)) == joined(parts) + part,
{
    assert(parts.push(part).drop_last() =~= parts);
}

/// Wrapping cuts a text into lines and neither drops nor adds anything.
pub proof fn law_wrapping_loses_nothing(pieces: Seq<Piece>, width: usize)
    requires
        width > 0,
    ensures
        joined(wrapped(pieces, width)) == spelled(pieces),
    decreases pieces.len(),
{
    let spell = |row: Seq<Piece>| spelled(row);
    let rows = rows_of(pieces, width);
    if pieces.len() == 0 {
        assert(wrapped(pieces, width) =~= Seq::<Seq<char>>::empty().push(seq![]));
        lemma_joined_push(Seq::empty(), seq![]);
        assert(joined(wrapped(pieces, width)) =~= seq![]);
    } else {
        let earlier = pieces.drop_last();
        let before = rows_of(earlier, width);
        law_wrapping_loses_nothing(earlier, width);
        lemma_rows_exist(earlier, width);
        let done = before.drop_last().map_values(spell);
        assert(wrapped(earlier, width) =~= done.push(spelled(before.last())));
        lemma_joined_push(done, spelled(before.last()));
        let last = pieces.last();
        if overflows(before.last(), last, width) {
            assert(seq![last].drop_last() =~= Seq::<Piece>::empty());
            assert(spelled(seq![last]) =~= last.text) by {
                assert(spelled(Seq::<Piece>::empty()) =~= seq![]);
            }
            assert(wrapped(pieces, width) =~= wrapped(earlier, width).push(last.text));
            lemma_joined_push(wrapped(earlier, width), last.text);
        } else {
            assert(before.last().push(last).drop_last() =~= before.last());
            assert(wrapped(pieces, width) =~= done.push(spelled(before.last()) + last.text));
            lemma_joined_push(done, spelled(before.last()) + last.text);
            assert(joined(done) + (spelled(before.last()) + last.text) =~= (joined(done) + spelled(
                before.last(),
            )) + last.text);
        }
    }
}

/// No line of a text is empty, unless the text is: no row lacks a piece, and no
/// piece lacks a character.
pub proof fn law_no_line_is_empty(pieces: Seq<Piece>, width: usize, i: int)
    requires
        width > 0,
        pieces.len() > 0,
        forall|k: int| 0 <= k < pieces.len() ==> (#[trigger] pieces[k]).text.len() > 0,
        0 <= i < wrapped(pieces, width).len(),
    ensures
        wrapped(pieces, width)[i].len() > 0,
{
    lemma_rows_show_something(pieces, width, i);
}

proof fn lemma_rows_show_something(pieces: Seq<Piece>, width: usize, i: int)
    requires
        pieces.len() > 0,
        forall|k: int| 0 <= k < pieces.len() ==> (#[trigger] pieces[k]).text.len() > 0,
        0 <= i < rows_of(pieces, width).len(),
    ensures
        spelled(rows_of(pieces, width)[i]).len() > 0,
    decreases pieces.len(),
{
    let earlier = pieces.drop_last();
    let before = rows_of(earlier, width);
    let last = pieces.last();
    lemma_rows_exist(earlier, width);
    assert(last.text.len() > 0) by {
        assert(pieces[pieces.len() - 1] == last);
    }
    assert(seq![last].drop_last() =~= Seq::<Piece>::empty());
    assert(before.last().push(last).drop_last() =~= before.last());
    if earlier.len() > 0 {
        assert forall|k: int| 0 <= k < earlier.len() implies (#[trigger] earlier[k]).text.len()
            > 0 by {
            assert(earlier[k] == pieces[k]);
        }
        if i < before.len() {
            lemma_rows_show_something(earlier, width, i);
        }
    }
}

/// A row fits in the width, or it ends with the one piece in it that takes any
/// columns and is itself too wide.
pub open spec fn fits(row: Seq<Piece>, width: usize) -> bool {
    used(row) <= width || (row.len() > 0 && used(row.drop_last()) == 0)
}

/// No line is wider than the dialog, but for a single piece that is.
pub proof fn law_lines_fit(pieces: Seq<Piece>, width: usize, i: int)
    requires
        0 <= i < rows_of(pieces, width).len(),
    ensures
        fits(rows_of(pieces, width)[i], width),
    decreases pieces.len(),
{
    if pieces.len() > 0 {
        let earlier = pieces.drop_last();
        let before = rows_of(earlier, width);
        let last = pieces.last();
        lemma_rows_exist(earlier, width);
        if i < before.len() - 1 {
            law_lines_fit(earlier, width, i);
        } else if overflows(before.last(), last, width) {
            if i < before.len() {
                law_lines_fit(earlier, width, i);
            } else {
                assert(seq![last].drop_last() =~= Seq::<Piece>::empty());
            }
        } else {
            assert(before.last().push(last).drop_last() =~= before.last());
        }
    }
}

/// Where one line ends and the next begins, the next piece would not have fit.
pub proof fn law_lines_are_full(pieces: Seq<Piece>, width: usize, i: int)
    requires
        0 <= i < rows_of(pieces, width).len() - 1,
    ensures
        rows_of(pieces, width)[i + 1].len() > 0,
        overflows(rows_of(pieces, width)[i], rows_of(pieces, width)[i + 1][0], width),
    decreases pieces.len(),
{
    if pieces.len() > 0 {
        let earlier = pieces.drop_last();
        let before = rows_of(earlier, width);
        let last = pieces.last();
        lemma_rows_exist(earlier, width);
        if overflows(before.last(), last, width) {
            if i < before.len() - 1 {
                law_lines_are_full(earlier, width, i);
            }
        } else if i < before.len() - 1 {
            law_lines_are_full(earlier, width, i);
            if i + 1 == before.len() - 1 {
                assert(before.last().push(last)[0] == before.last()[0]);
            }
        }
    }
}

/// Scrolling never leaves the list: from within it, every key leads to within
/// it, and a dialog that follows the end stands at it.
pub proof fn law_scrolling_stays_in_the_list(
    dialog: MessagesDialog,
    code: KeyCode,
    total: usize,
    visible: usize,
)
    requires
        dialog.follow_end || dialog.scroll <= furthest(total, visible),
    ensures
        ({
            let after = dialog.pressed(code, total, visible).0;
            &&& after.scroll <= furthest(total, visible)
            &&& after.follow_end ==> after.scroll == furthest(total, visible)
        }),
{
}

/// One line down undoes one line up, unless the list began at its first line.
pub proof fn law_down_undoes_up(dialog: MessagesDialog, total: usize, visible: usize)
    requires
        dialog.follow_end || dialog.scroll <= furthest(total, visible),
        dialog.settled(furthest(total, visible)).scroll > 0,
    ensures
        ({
            let up = dialog.pressed(KeyCode::Up, total, visible).0;
            let down = up.pressed(KeyCode::Down, total, visible).0;
            &&& up.scroll == dialog.settled(furthest(total, visible)).scroll - 1
            &&& down.scroll == dialog.settled(furthest(total, visible)).scroll
        }),
{
}

/// From a place within the list each key moves by exactly what it says, and the
/// end is followed exactly where a move towards it reaches it. Where the end is
/// followed, a key counts from there. Of the other keys only those for closing and
/// for clearing ask for anything, and none of them moves.
pub proof fn law_each_key_moves_by_what_it_says(
    dialog: MessagesDialog,
    code: KeyCode,
    total: usize,
    visible: usize,
)
    requires
        dialog.follow_end || dialog.scroll + visible <= total || dialog.scroll == 0,
    ensures
        ({
            let (after, action) = dialog.pressed(code, total, visible);
            let end: int = if total > visible {
                total - visible
            } else {
                0
            };
            let page: int = if visible == 0 {
                1
            } else {
                visible as int
            };
            let from: int = if dialog.follow_end {
                end
            } else {
                dialog.scroll as int
            };
            let moved: int = match code {
                KeyCode::Up => -1,
                KeyCode::Char('k') => -1,
                KeyCode::Down => 1,
                KeyCode::Char('j') => 1,
                KeyCode::PageUp => -page,
                KeyCode::PageDown => page,
                KeyCode::Home => -from,
                KeyCode::End => end - from,
                _ => 0,
            };
            let back = code == KeyCode::Up || code == KeyCode::Char('k') || code == KeyCode::PageUp
                || code == KeyCode::Home;
            let forth = code == KeyCode::Down || code == KeyCode::Char('j') || code
                == KeyCode::PageDown || code == KeyCode::End;
            &&& 0 <= after.scroll <= end
            &&& 0 <= from + moved <= end ==> after.scroll == from + moved
            &&& from + moved < 0 ==> after.scroll == 0
            &&& from + moved > end ==> after.scroll == end
            &&& back ==> !after.follow_end
            &&& forth ==> (after.follow_end <==> after.scroll == end)
            &&& !back && !forth ==> after.follow_end == dialog.follow_end
            &&& action == MessagesAction::Close <==> code == KeyCode::Esc || code == KeyCode::Char(
                'q',
            )
            &&& action == MessagesAction::Clear <==> code == KeyCode::Char('c')
        }),
{
}

/// A page up undoes a page down that the end did not cut short, and a page down
/// undoes a page up that the beginning did not cut short.
pub proof fn law_pages_undo_each_other(dialog: MessagesDialog, total: usize, visible: usize)
    requires
        !dialog.follow_end,
        dialog.scroll + visible <= total,
    ensures
        ({
            let page: int = if visible == 0 {
                1
            } else {
                visible as int
            };
            let down = dialog.pressed(KeyCode::PageDown, total, visible).0;
            let up = dialog.pressed(KeyCode::PageUp, total, visible).0;
            &&& dialog.scroll + page + visible <= total ==> {
                &&& down.scroll == dialog.scroll + page
                &&& down.pressed(KeyCode::PageUp, total, visible).0.scroll == dialog.scroll
            }
            &&& dialog.scroll + page + visible > total ==> down.scroll + visible == total
                && down.follow_end
            &&& dialog.scroll >= page ==> {
                &&& up.scroll == dialog.scroll - page
                &&& up.pressed(KeyCode::PageDown, total, visible).0.scroll == dialog.scroll
            }
            &&& dialog.scroll < page ==> up.scroll == 0
        }),
{
}

/// A list of no more than fits has one place only: every key leads to its first
/// line.
pub proof fn law_a_short_list_does_not_scroll(
    dialog: MessagesDialog,
    code: KeyCode,
    total: usize,
    visible: usize,
)
    requires
        total <= visible,
        dialog.follow_end || dialog.scroll == 0,
    ensures
        dialog.pressed(code, total, visible).0.scroll == 0,
{
}

/// Each line of a message shows its text after three columns: the first one after
/// the message's marker, the others after blanks. No message loses its lines to
/// another: the list of two parts is the lists of the parts, one after the other.
pub proof fn law_every_message_is_listed_in_order(
    first: Seq<Message>,
    second: Seq<Message>,
    message: Message,
    width: usize,
)
    ensures
        listed(first + second, width) == listed(first, width) + listed(second, width),
        ({
            let shown = listed(seq![message], width);
            let texts = wrapped(
                pieces_of(message.text@),
                if width > 3 {
                    (width - 3) as usize
                } else {
                    0
                },
            );
            &&& shown.len() == texts.len()
            &&& shown.len() > 0
            &&& forall|i: int|
                0 <= i < shown.len() ==> (#[trigger] shown[i]).kind == message.kind
                    && shown[i].text.len() == 3 + texts[i].len() && shown[i].text.skip(3)
                    == texts[i] && shown[i].text[0] == ' ' && shown[i].text[2] == ' '
                    && shown[i].text[1] == (if i > 0 {
                    ' '
                } else if message.kind == MessageKind::Error {
                    '!'
                } else {
                    '•'
                })
        }),
    decreases second.len(),
{
    if second.len() == 0 {
        assert(first + second =~= first);
        assert(listed(first, width) + listed(second, width) =~= listed(first, width));
    } else {
        law_every_message_is_listed_in_order(first, second.drop_last(), message, width);
        assert((first + second).drop_last() =~= first + second.drop_last());
        assert((first + second).last() == second.last());
        assert(listed(first + second, width) =~= listed(first, width) + listed(second, width));
    }
    let shown = listed(seq![message], width);
    let texts = wrapped(pieces_of(message.text@), body_width(width));
    assert(seq![message].drop_last() =~= Seq::<Message>::empty());
    assert(shown =~= marked(message.kind, texts)) by {
        assert(listed(Seq::<Message>::empty(), width) =~= seq![]);
    }
    lemma_rows_exist(pieces_of(message.text@), body_width(width));
    reveal_strlit("   ");
    reveal_strlit(" • ");
    reveal_strlit(" ! ");
    assert forall|i: int| 0 <= i < shown.len() implies (#[trigger] shown[i]).kind == message.kind
        && shown[i].text.len() == 3 + texts[i].len() && shown[i].text.skip(3) == texts[i]
        && shown[i].text[0] == ' ' && shown[i].text[2] == ' ' && shown[i].text[1] == (if i > 0 {
        ' '
    } else if message.kind == MessageKind::Error {
        '!'
    } else {
        '•'
    }) by {
        assert(shown[i].text == margin(message.kind, i) + texts[i]);
        assert(shown[i].text.skip(3) =~= texts[i]);
    }
}

/// A dialog that is tall enough gives its first row to the title and its last to
/// the footer; the title gives way last, and messages have every other row.
pub proof fn law_title_and_footer_leave_room_for_messages(height: u16)
    ensures
        chrome(height).0 + chrome(height).1 + body_height(height) == height,
        height > 0 ==> body_height(height) > 0,
        height >= 3 ==> chrome(height) == (1u16, 1u16),
        height == 2 ==> chrome(height) == (1u16, 0u16),
        height < 2 ==> chrome(height) == (0u16, 0u16),
{
}

/// Without any width a text takes one empty line; with some, a text that fits takes
/// one line, as it stands.
pub proof fn law_a_text_that_fits_takes_one_line(pieces: Seq<Piece>, width: usize)
    ensures
        wrapped(pieces, 0) == seq![Seq::<char>::empty()],
        width > 0 && used(pieces) <= width && width < usize::MAX ==> wrapped(pieces, width) == seq![
            spelled(pieces),
        ],
{
    assert(wrapped(pieces, 0) =~= seq![Seq::<char>::empty()]);
    if width > 0 && used(pieces) <= width && width < usize::MAX {
        lemma_one_row(pieces, width);
        assert(wrapped(pieces, width) =~= seq![spelled(pieces)]);
    }
}

proof fn lemma_one_row(pieces: Seq<Piece>, width: usize)
    requires
        used(pieces) <= width < usize::MAX,
    ensures
        rows_of(pieces, width) == seq![pieces],
    decreases pieces.len(),
{
    if pieces.len() == 0 {
        assert(pieces =~= seq![]);
        assert(rows_of(pieces, width) =~= seq![pieces]);
    } else {
        lemma_one_row(pieces.drop_last(), width);
        assert(pieces.drop_last().push(pieces.last()) =~= pieces);
        assert(rows_of(pieces, width) =~= seq![pieces]);
    }
}

/// The columns of all pieces together.
pub open spec fn breadth(row: Seq<Piece>) -> int
    decreases row.len(),
{
    if row.len() == 0 {
        0
    } else {
        breadth(row.drop_last()) + row.last().width
    }
}

proof fn lemma_used_is_breadth(row: Seq<Piece>)
    ensures
        used(row) == (if breadth(row) <= usize::MAX {
            breadth(row)
        } else {
            usize::MAX as int
        }),
        breadth(row) >= 0,
    decreases row.len(),
{
    if row.len() > 0 {
        lemma_used_is_breadth(row.drop_last());
    }
}

/// A line breaks only where it must: what it shows takes columns, and with the next
/// piece it would take more than there are. No line takes more than there are,
/// unless all its pieces but the last take none.
pub proof fn law_a_line_breaks_only_where_it_must(pieces: Seq<Piece>, width: usize, i: int)
    requires
        0 <= i < rows_of(pieces, width).len(),
    ensures
        ({
            let row = rows_of(pieces, width)[i];
            let next = rows_of(pieces, width)[i + 1];
            &&& i + 1 < rows_of(pieces, width).len() ==> {
                &&& breadth(row) > 0
                &&& next.len() > 0
                &&& breadth(row) + next[0].width > width
            }
            &&& width < usize::MAX ==> breadth(row) <= width || breadth(row.drop_last()) == 0
        }),
{
    let row = rows_of(pieces, width)[i];
    lemma_used_is_breadth(row);
    lemma_used_is_breadth(row.drop_last());
    law_lines_fit(pieces, width, i);
    if i + 1 < rows_of(pieces, width).len() {
        law_lines_are_full(pieces, width, i);
    }
}

/// Every cluster of a text is one piece, as wide as it is displayed.
pub proof fn law_pieces_are_the_clusters_of_a_text(text: Seq<char>)
    ensures
        pieces_of(text).len() == grapheme_clusters(text).len(),
        forall|i: int|
            0 <= i < pieces_of(text).len() ==> (#[trigger] pieces_of(text)[i]).text
                == grapheme_clusters(text)[i] && pieces_of(text)[i].width == display_width(
                grapheme_clusters(text)[i],
            ),
{
}

/// What is drawn is a window of the list: as many lines in a row as there are rows
/// for messages, or all of them. A dialog that follows the end shows the last line;
/// one that does not shows what it showed, unless the list has become too short for
/// that. Nothing is drawn, and nothing moves, where there is no room at all.
pub proof fn law_a_window_of_the_list_is_shown(
    dialog: MessagesDialog,
    inner: Area,
    messages: Seq<Message>,
    after: MessagesDialog,
    r: Option<Layout>,
)
    requires
        dialog.rendered(inner, messages, after, r),
    ensures
        r is None <==> inner.width == 0 || inner.height == 0,
        r is None ==> after == dialog,
        after.follow_end == dialog.follow_end,
        r matches Some(layout) ==> {
            let all = listed(messages, inner.width as usize);
            let rows = inner.height - layout.header - layout.footer;
            &&& layout.header == (if inner.height >= 2 {
                1int
            } else {
                0
            })
            &&& layout.footer == (if inner.height >= 3 {
                1int
            } else {
                0
            })
            &&& layout.body_height == rows
            &&& layout.total == all.len()
            &&& layout.scroll == after.scroll
            &&& layout.visible@.len() == (if all.len() < rows {
                all.len() as int
            } else {
                rows as int
            })
            &&& layout.scroll + layout.visible@.len() <= all.len()
            &&& forall|i: int|
                0 <= i < layout.visible@.len() ==> (#[trigger] layout.visible@[i])@
                    == all[layout.scroll + i]
            &&& dialog.follow_end ==> layout.scroll + layout.visible@.len() == all.len()
            &&& !dialog.follow_end && dialog.scroll + rows <= all.len() ==> layout.scroll
                == dialog.scroll
            &&& !dialog.follow_end && dialog.scroll + rows > all.len() ==> layout.scroll
                + layout.visible@.len() == all.len()
        },
{
    if r is Some {
        let layout = r->0;
        assert(lines(layout.visible@).len() == layout.visible@.len());
        assert forall|i: int| 0 <= i < layout.visible@.len() implies (
        #[trigger] layout.visible@[i])@ == listed(messages, inner.width as usize)[layout.scroll
            + i] by {
            assert(lines(layout.visible@)[i] == layout.visible@[i]@);
        }
    }
}

/// A key that is held down counts like one that is pressed, and moves within the
/// very list that is drawn in the same area; releasing it means nothing.
pub proof fn law_pressed_and_held_keys_count(
    dialog: MessagesDialog,
    code: KeyCode,
    inner: Area,
    messages: Seq<Message>,
    after: MessagesDialog,
    layout: Layout,
)
    requires
        dialog.rendered(inner, messages, after, Some(layout)),
    ensures
        dialog.handled(KeyEvent { code, kind: KeyEventKind::Release }, inner, messages) == (
            dialog,
            MessagesAction::Stay,
        ),
        dialog.handled(KeyEvent { code, kind: KeyEventKind::Press }, inner, messages)
            == dialog.pressed(code, layout.total, layout.body_height),
        dialog.handled(KeyEvent { code, kind: KeyEventKind::Repeat }, inner, messages)
            == dialog.pressed(code, layout.total, layout.body_height),
{
}

} // verus!
