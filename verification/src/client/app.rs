//! The chat client's screen state and what it decides on each event: which
//! lines the chat shows, how they are drawn, and what typing does.
use vstd::prelude::*;

use super::connection_handler::ConnectionState;
use super::terminal::{
    Color, Frame, KeyEventKind, TerminalCell, TerminalCellStyle, TerminalEvent, TerminalKeyEvent,
    TerminalPos, TerminalRect, TerminalSize,
};
use super::widget::list::VerticalListWidget;
use super::widget::text::{styled_chars, StyledSegment, StyledText, TextWidget};
use super::widget::{AxisConstraint, BoxConstraints, Widget};
use crate::common::packet::{ClientId, PeerInfo, ServerToClientPacket};

verus! {

#[derive(Clone, Debug, Eq, PartialEq, Hash)]
pub enum ChatLine {
    Text { peer_id: u64, message: String },
    ConnectInfo { connection_id: u64, peer_ids: Vec<u64> },
    Connected { peer_id: u64 },
    Disconnected { peer_id: u64 },
}

#[derive(Clone, Debug)]
pub enum AppCommand {
    AddChatLine(ChatLine),
}

/// Wraps `String::push`: appends `ch`.
#[verifier::external_body]
fn string_push(s: &mut String, ch: char)
    ensures
        final(s)@ == old(s)@.push(ch),
{
    s.push(ch)
}

/// Wraps `String::pop`: removes and returns the last character, if there is one.
#[verifier::external_body]
fn string_pop(s: &mut String) -> (r: Option<char>)
    ensures
        old(s)@.len() == 0 ==> r is None && final(s)@ == old(s)@,
        old(s)@.len() > 0 ==> r == Some(old(s)@.last()) && final(s)@ == old(s)@.drop_last(),
{
    s.pop()
}

/// The decimal digits of `n`.
pub open spec fn decimal(n: nat) -> Seq<char>
    decreases n,
{
    let digit = (n % 10 + '0' as nat) as char;
    if n < 10 {
        seq![digit]
    } else {
        decimal(n / 10).push(digit)
    }
}

/// Appends the decimal digits of `n` to `s`.
fn push_decimal(s: &mut String, n: u64)
    ensures
        final(s)@ == old(s)@ + decimal(n as nat),
    decreases n,
{
    let digit = ((n % 10) as u8 + 48u8) as char;
    proof {
        assert(digit == (n % 10 + '0' as nat) as char);
    }
    if n >= 10 {
        push_decimal(s, n / 10);
    }
    string_push(s, digit);
    proof {
        if n >= 10 {
            assert(final(s)@ =~= old(s)@ + decimal(n as nat));
        } else {
            assert(final(s)@ =~= old(s)@ + decimal(n as nat));
        }
    }
}

/// A styled run's text and style.
pub open spec fn segment_view(segment: StyledSegment) -> (Seq<char>, TerminalCellStyle) {
    (segment.text@, segment.style)
}

pub open spec fn segments_view(segments: Seq<StyledSegment>) -> Seq<(Seq<char>, TerminalCellStyle)> {
    segments.map_values(|s: StyledSegment| segment_view(s))
}

/// Text in the default style.
pub open spec fn plain(text: Seq<char>) -> (Seq<char>, TerminalCellStyle) {
    (text, TerminalCellStyle::spec_default())
}

/// Text in the default style recolored to `color`.
pub open spec fn colored(text: Seq<char>, color: Color) -> (Seq<char>, TerminalCellStyle) {
    (text, TerminalCellStyle { foreground_color: color, background_color: Color::Reset })
}

/// How a peer is named: its username; `?` and its number when it has none;
/// `!` and its number when nothing is known of it.
pub open spec fn display_tag(infos: Map<ClientId, PeerInfo>, id: ClientId) -> Seq<char> {
    if infos.contains_key(id) {
        match infos[id].username {
            Some(name) => name@,
            None => seq!['?'] + decimal(id as nat),
        }
    } else {
        seq!['!'] + decimal(id as nat)
    }
}

/// `<`, a `~` for oneself, the peer's tag, `>`: in cyan for oneself and green for others.
pub open spec fn connection_segments(infos: Map<ClientId, PeerInfo>, self_id: ClientId, id: ClientId) -> Seq<
    (Seq<char>, TerminalCellStyle),
> {
    let marker = if id == self_id {
        seq!['~']
    } else {
        Seq::empty()
    };
    let color = if id == self_id {
        Color::Cyan
    } else {
        Color::Green
    };
    seq![
        plain("<"@),
        colored(marker, color),
        colored(display_tag(infos, id), color),
        plain(">"@),
    ]
}

/// ` to ` and the first peer, then `, ` and each further peer.
pub open spec fn peer_list_segments(infos: Map<ClientId, PeerInfo>, self_id: ClientId, peers: Seq<ClientId>) -> Seq<
    (Seq<char>, TerminalCellStyle),
>
    decreases peers.len(),
{
    if peers.len() == 0 {
        Seq::empty()
    } else if peers.len() == 1 {
        seq![plain(" to "@)] + connection_segments(infos, self_id, peers[0])
    } else {
        peer_list_segments(infos, self_id, peers.drop_last()) + seq![plain(", "@)]
            + connection_segments(infos, self_id, peers.last())
    }
}

/// The styled runs a chat line is drawn with.
pub open spec fn chat_line_segments(line: ChatLine, infos: Map<ClientId, PeerInfo>, self_id: ClientId) -> Seq<
    (Seq<char>, TerminalCellStyle),
> {
    match line {
        ChatLine::Text { peer_id, message } => connection_segments(infos, self_id, peer_id) + seq![
            plain(": "@),
            plain(message@),
        ],
        ChatLine::ConnectInfo { connection_id, peer_ids } => seq![
            colored("---"@, Color::Blue),
            plain(" connected as "@),
        ] + connection_segments(infos, self_id, connection_id) + peer_list_segments(
            infos,
            self_id,
            peer_ids@,
        ) + seq![colored(" ---"@, Color::Blue)],
        ChatLine::Connected { peer_id } => seq![colored(">> "@, Color::Blue)] + connection_segments(
            infos,
            self_id,
            peer_id,
        ) + seq![plain(" connected"@)],
        ChatLine::Disconnected { peer_id } => seq![colored("<< "@, Color::Red)]
            + connection_segments(infos, self_id, peer_id) + seq![plain(" disconnected"@)],
    }
}

/// The text of styled runs, one after the other.
pub open spec fn segments_text(segments: Seq<(Seq<char>, TerminalCellStyle)>) -> Seq<char>
    decreases segments.len(),
{
    if segments.len() == 0 {
        Seq::empty()
    } else {
        segments_text(segments.drop_last()) + segments.last().0
    }
}

proof fn lemma_segments_text_concat(a: Seq<(Seq<char>, TerminalCellStyle)>, b: Seq<(Seq<char>, TerminalCellStyle)>)
    ensures
        segments_text(a + b) == segments_text(a) + segments_text(b),
    decreases b.len(),
{
    if b.len() == 0 {
        assert(a + b =~= a);
        assert(segments_text(a) + segments_text(b) =~= segments_text(a));
    } else {
        lemma_segments_text_concat(a, b.drop_last());
        assert((a + b).drop_last() =~= a + b.drop_last());
        assert(segments_text(a) + segments_text(b) =~= segments_text(a) + segments_text(b.drop_last())
            + b.last().0);
    }
}

proof fn lemma_segments_text_one(x: (Seq<char>, TerminalCellStyle))
    ensures
        segments_text(seq![x]) == x.0,
{
    let empty = Seq::<(Seq<char>, TerminalCellStyle)>::empty();
    assert(seq![x].drop_last() =~= empty);
    assert(seq![x].last() == x);
    assert(segments_text(empty) == Seq::<char>::empty());
    assert(segments_text(seq![x]) == segments_text(empty) + x.0);
    assert(Seq::<char>::empty() + x.0 =~= x.0);
}

/// How a peer is shown in a chat line: `<`, a `~` for oneself, its tag, `>`.
pub open spec fn peer_text(infos: Map<ClientId, PeerInfo>, self_id: ClientId, id: ClientId) -> Seq<char> {
    "<"@ + (if id == self_id {
        "~"@
    } else {
        ""@
    }) + display_tag(infos, id) + ">"@
}

proof fn lemma_connection_text(infos: Map<ClientId, PeerInfo>, self_id: ClientId, id: ClientId)
    ensures
        segments_text(connection_segments(infos, self_id, id)) == peer_text(infos, self_id, id),
{
    reveal_strlit("<");
    reveal_strlit(">");
    reveal_strlit("~");
    reveal_strlit("");
    let marker = if id == self_id {
        seq!['~']
    } else {
        Seq::empty()
    };
    let color = if id == self_id {
        Color::Cyan
    } else {
        Color::Green
    };
    let a = seq![plain("<"@)];
    let b = seq![colored(marker, color)];
    let c = seq![colored(display_tag(infos, id), color)];
    let d = seq![plain(">"@)];
    assert(connection_segments(infos, self_id, id) =~= a + b + c + d);
    lemma_segments_text_one(a[0]);
    lemma_segments_text_one(b[0]);
    lemma_segments_text_one(c[0]);
    lemma_segments_text_one(d[0]);
    lemma_segments_text_concat(a, b);
    lemma_segments_text_concat(a + b, c);
    lemma_segments_text_concat(a + b + c, d);
    assert(segments_text(a + b + c + d) =~= peer_text(infos, self_id, id));
}

/// What a chat line reads: a message follows its sender and `: `; a peer
/// that connected is announced by `>> ` and ` connected`, one that left by
/// `<< ` and ` disconnected`.
pub proof fn lemma_chat_line_text(line: ChatLine, infos: Map<ClientId, PeerInfo>, self_id: ClientId)
    ensures
        match line {
            ChatLine::Text { peer_id, message } => segments_text(chat_line_segments(line, infos, self_id))
                == peer_text(infos, self_id, peer_id) + ": "@ + message@,
            ChatLine::Connected { peer_id } => segments_text(chat_line_segments(line, infos, self_id))
                == ">> "@ + peer_text(infos, self_id, peer_id) + " connected"@,
            ChatLine::Disconnected { peer_id } => segments_text(chat_line_segments(line, infos, self_id))
                == "<< "@ + peer_text(infos, self_id, peer_id) + " disconnected"@,
            ChatLine::ConnectInfo { connection_id, .. } => segments_text(chat_line_segments(line, infos, self_id)).take(17)
                == "--- connected as "@,
        },
{
    reveal_strlit(": ");
    reveal_strlit(">> ");
    reveal_strlit("<< ");
    reveal_strlit(" connected");
    reveal_strlit(" disconnected");
    reveal_strlit("---");
    reveal_strlit(" connected as ");
    reveal_strlit("--- connected as ");
    match line {
        ChatLine::Text { peer_id, message } => {
            let head = connection_segments(infos, self_id, peer_id);
            let tail = seq![plain(": "@)] + seq![plain(message@)];
            assert(chat_line_segments(line, infos, self_id) =~= head + tail);
            lemma_segments_text_concat(head, tail);
            lemma_connection_text(infos, self_id, peer_id);
            lemma_segments_text_one(plain(": "@));
            lemma_segments_text_one(plain(message@));
            lemma_segments_text_concat(seq![plain(": "@)], seq![plain(message@)]);
            assert(segments_text(head) + segments_text(tail) =~= peer_text(infos, self_id, peer_id) + ": "@
                + message@);
        },
        ChatLine::ConnectInfo { connection_id, peer_ids } => {
            let head = seq![colored("---"@, Color::Blue)] + seq![plain(" connected as "@)];
            lemma_segments_text_one(colored("---"@, Color::Blue));
            lemma_segments_text_one(plain(" connected as "@));
            lemma_segments_text_concat(seq![colored("---"@, Color::Blue)], seq![plain(" connected as "@)]);
            let rest = connection_segments(infos, self_id, connection_id) + peer_list_segments(
                infos,
                self_id,
                peer_ids@,
            ) + seq![colored(" ---"@, Color::Blue)];
            assert(chat_line_segments(line, infos, self_id) =~= head + rest);
            lemma_segments_text_concat(head, rest);
            assert(segments_text(head) =~= "--- connected as "@);
            assert((segments_text(head) + segments_text(rest)).take(17) =~= "--- connected as "@);
        },
        ChatLine::Connected { peer_id } => lemma_announcements_differ(infos, self_id, peer_id),
        ChatLine::Disconnected { peer_id } => lemma_announcements_differ(infos, self_id, peer_id),
    }
}

/// The two announcements of one peer, that it connected and that it left,
/// never read alike, neither at the start nor at the end.
pub proof fn lemma_announcements_differ(infos: Map<ClientId, PeerInfo>, self_id: ClientId, peer_id: ClientId)
    ensures
        ({
            let on = segments_text(chat_line_segments(ChatLine::Connected { peer_id }, infos, self_id));
            let off = segments_text(chat_line_segments(ChatLine::Disconnected { peer_id }, infos, self_id));
            &&& on[0] == '>' && off[0] == '<'
            &&& on[on.len() - 10] == ' ' && off[off.len() - 10] == 's'
        }),
        segments_text(chat_line_segments(ChatLine::Connected { peer_id }, infos, self_id))
            == ">> "@ + peer_text(infos, self_id, peer_id) + " connected"@,
        segments_text(chat_line_segments(ChatLine::Disconnected { peer_id }, infos, self_id))
            == "<< "@ + peer_text(infos, self_id, peer_id) + " disconnected"@,
{
    reveal_strlit(">> ");
    reveal_strlit("<< ");
    reveal_strlit(" connected");
    reveal_strlit(" disconnected");
    let tag = connection_segments(infos, self_id, peer_id);
    lemma_connection_text(infos, self_id, peer_id);
    let on_head = seq![colored(">> "@, Color::Blue)];
    let on_tail = seq![plain(" connected"@)];
    lemma_segments_text_concat(on_head, tag);
    lemma_segments_text_concat(on_head + tag, on_tail);
    lemma_segments_text_one(on_head[0]);
    lemma_segments_text_one(on_tail[0]);
    assert(chat_line_segments(ChatLine::Connected { peer_id }, infos, self_id) =~= on_head + tag + on_tail);
    let off_head = seq![colored("<< "@, Color::Red)];
    let off_tail = seq![plain(" disconnected"@)];
    lemma_segments_text_concat(off_head, tag);
    lemma_segments_text_concat(off_head + tag, off_tail);
    lemma_segments_text_one(off_head[0]);
    lemma_segments_text_one(off_tail[0]);
    assert(chat_line_segments(ChatLine::Disconnected { peer_id }, infos, self_id) =~= off_head + tag + off_tail);
}

/// The colors of an announcement: `>> ` in blue for a peer that connected,
/// `<< ` in red for one that left, and the peer's tag in cyan for oneself and
/// in green for another.
pub proof fn lemma_announcement_colors(infos: Map<ClientId, PeerInfo>, self_id: ClientId, peer_id: ClientId)
    ensures
        ({
            let on = chat_line_segments(ChatLine::Connected { peer_id }, infos, self_id);
            let off = chat_line_segments(ChatLine::Disconnected { peer_id }, infos, self_id);
            let tag_color = if peer_id == self_id {
                Color::Cyan
            } else {
                Color::Green
            };
            &&& on[0] == colored(">> "@, Color::Blue)
            &&& off[0] == colored("<< "@, Color::Red)
            &&& on[3] == colored(display_tag(infos, peer_id), tag_color)
            &&& off[3] == colored(display_tag(infos, peer_id), tag_color)
        }),
{
}

/// The characters a text widget draws are the text of its runs: what
/// [`lemma_chat_line_text`] says a chat line reads is what its widget shows.
pub proof fn lemma_drawn_chars_are_text(spans: Seq<StyledSegment>)
    ensures
        styled_chars(spans).map_values(|p: (char, TerminalCellStyle)| p.0) == segments_text(segments_view(spans)),
    decreases spans.len(),
{
    if spans.len() > 0 {
        let init = spans.drop_last();
        let last = spans.last();
        lemma_drawn_chars_are_text(init);
        assert(segments_view(spans).drop_last() =~= segments_view(init));
        assert(segments_view(spans).last() == segment_view(last));
        let run = last.text@.map_values(|c: char| (c, last.style));
        assert(styled_chars(spans) == styled_chars(init) + run);
        assert(run.map_values(|p: (char, TerminalCellStyle)| p.0) =~= last.text@);
        assert(styled_chars(spans).map_values(|p: (char, TerminalCellStyle)| p.0) =~= styled_chars(init).map_values(
            |p: (char, TerminalCellStyle)| p.0,
        ) + last.text@);
    } else {
        assert(styled_chars(spans).map_values(|p: (char, TerminalCellStyle)| p.0) =~= Seq::<char>::empty());
    }
}

/// Something the application reacts to.
#[derive(Clone, Debug)]
pub enum AppEvent {
    IncomingPacket(ServerToClientPacket),
    Input(TerminalEvent),
}

/// What the application does after an event.
#[derive(Debug)]
pub enum ControlFlow {
    Exit,
    Continue,
    /// Continue, with a task that sends `line` as a message from the peer `self_id`.
    SendMessage { self_id: ClientId, line: String },
    /// Continue, with a task that shows the peer `peer_id` as connected and asks
    /// the server about it.
    PeerConnected { peer_id: ClientId },
}

/// Control and `c` pressed together.
pub open spec fn is_interrupt(event: TerminalEvent) -> bool {
    event matches TerminalEvent::Key(key) && key.kind == KeyEventKind::Char('c')
        && key.modifiers.control
}

/// What a key press does to the message being typed: Backspace takes the
/// last character off, a character key adds its character, Enter clears it.
pub open spec fn edited_draft(event: TerminalEvent, draft: Seq<char>) -> Seq<char> {
    match event {
        TerminalEvent::Key(key) => match key.kind {
            KeyEventKind::Backspace => if draft.len() > 0 {
                draft.drop_last()
            } else {
                draft
            },
            KeyEventKind::Enter => Seq::empty(),
            KeyEventKind::Char(ch) => draft.push(ch),
            _ => draft,
        },
        _ => draft,
    }
}

/// Typing a character and then pressing Backspace leaves the message being
/// typed as it was.
pub proof fn lemma_backspace_undoes_typing(draft: Seq<char>, typed: TerminalKeyEvent, erase: TerminalKeyEvent)
    requires
        typed.kind is Char,
        erase.kind == KeyEventKind::Backspace,
    ensures
        edited_draft(TerminalEvent::Key(erase), edited_draft(TerminalEvent::Key(typed), draft)) == draft,
{
    if let KeyEventKind::Char(ch) = typed.kind {
        assert(draft.push(ch).drop_last() =~= draft);
    }
}

/// The key press is Enter.
pub open spec fn is_enter(event: TerminalEvent) -> bool {
    event matches TerminalEvent::Key(key) && key.kind == KeyEventKind::Enter
}

/// The chat line a packet from the server adds, if it adds one.
pub open spec fn packet_chat_line(packet: ServerToClientPacket) -> Option<ChatLine> {
    match packet {
        ServerToClientPacket::PeerDisonnected { peer_id } => Some(ChatLine::Disconnected { peer_id }),
        ServerToClientPacket::PeerMessage { peer_id, message } => Some(
            ChatLine::Text { peer_id, message },
        ),
        _ => None,
    }
}

/// A screen of `n` blank cells.
pub open spec fn blank_screen(n: nat) -> Seq<TerminalCell> {
    Seq::new(n, |i: int| TerminalCell { style: TerminalCellStyle::spec_default(), character: None })
}

/// The size constraints of a screen of `size`: at most its width and height.
pub open spec fn screen_constraints(size: TerminalSize) -> BoxConstraints {
    BoxConstraints {
        width: AxisConstraint { min: None, max: Some(size.width as u16) },
        height: AxisConstraint { min: None, max: Some(size.height as u16) },
    }
}

/// The widgets of the chat before layout: a stack of one text widget per chat
/// line, each drawn with [`chat_line_segments`].
pub open spec fn is_chat_tree(
    tree: VerticalListWidget<TextWidget>,
    lines: Seq<ChatLine>,
    infos: Map<ClientId, PeerInfo>,
    self_id: ClientId,
) -> bool {
    &&& tree.children().len() == lines.len()
    &&& forall|i: int|
        0 <= i < lines.len() ==> segments_view(#[trigger] tree.children()[i].text())
            == chat_line_segments(lines[i], infos, self_id)
    &&& forall|i: int|
        0 <= i < lines.len() ==> (#[trigger] tree.children()[i]).computed_size() == None::<TerminalSize>
            && tree.children()[i].line_lengths() == Seq::<u16>::empty()
    &&& tree.child_sizes() == Seq::<TerminalSize>::empty()
    &&& tree.computed_size() == None::<TerminalSize>
}

/// `cells` is what `tree`, laid out as `laid_out` on a screen of `size`, draws
/// on a blank screen.
pub open spec fn chat_drawn_as(
    cells: Seq<TerminalCell>,
    tree: VerticalListWidget<TextWidget>,
    laid_out: VerticalListWidget<TextWidget>,
    extent: TerminalSize,
    size: TerminalSize,
) -> bool {
    &&& tree.stacks_as(laid_out, screen_constraints(size), extent)
    &&& cells == laid_out.stacked_drawn(
        size,
        TerminalRect {
            start: TerminalPos { column: 0, row: 0 },
            end: TerminalPos { column: size.width, row: size.height },
        },
        blank_screen((size.width * size.height) as nat),
    )
}

/// `cells` shows `lines` on a screen of `size`: the chat lines' texts, laid
/// out in a stack under the screen's size and drawn on a blank screen.
pub open spec fn shows_chat(
    cells: Seq<TerminalCell>,
    lines: Seq<ChatLine>,
    infos: Map<ClientId, PeerInfo>,
    self_id: ClientId,
    size: TerminalSize,
) -> bool {
    exists|
        tree: VerticalListWidget<TextWidget>,
        laid_out: VerticalListWidget<TextWidget>,
        extent: TerminalSize,
    |
        #![trigger chat_drawn_as(cells, tree, laid_out, extent, size)]
        is_chat_tree(tree, lines, infos, self_id) && chat_drawn_as(cells, tree, laid_out, extent, size)
}

/// The chat client's state, with `T` the handle of a task waiting for responses.
pub struct App<T> {
    client: ConnectionState<T>,
    chat_lines: Vec<ChatLine>,
    current_message_text: String,
}

impl<T> App<T> {
    /// The connection handler's state.
    pub closed spec fn connection(&self) -> ConnectionState<T> {
        self.client
    }

    pub fn client(&self) -> (r: &ConnectionState<T>)
        ensures
            *r == self.connection(),
    {
        &self.client
    }

    pub fn client_mut(&mut self) -> (r: &mut ConnectionState<T>)
        ensures
            *r == old(self).connection(),
            final(self).connection() == *final(r),
            final(self).lines() == old(self).lines(),
            final(self).draft() == old(self).draft(),
    {
        &mut self.client
    }

    pub closed spec fn lines(&self) -> Seq<ChatLine> {
        self.chat_lines@
    }

    /// The message being typed.
    pub closed spec fn draft(&self) -> Seq<char> {
        self.current_message_text@
    }

    pub fn new(client: ConnectionState<T>) -> (r: Self)
        ensures
            r.connection() == client,
            r.lines() == Seq::<ChatLine>::empty(),
            r.draft() == Seq::<char>::empty(),
    {
        Self { client, chat_lines: Vec::new(), current_message_text: String::new() }
    }

    pub fn chat_lines(&self) -> (r: &Vec<ChatLine>)
        ensures
            r@ == self.lines(),
    {
        &self.chat_lines
    }

    pub fn current_message_text(&self) -> (r: &String)
        ensures
            r@ == self.draft(),
    {
        &self.current_message_text
    }

    /// How the peer `connection_id` is named on screen.
    pub fn get_display_tag(&self, connection_id: ClientId) -> (r: String)
        ensures
            r@ == display_tag(self.connection().infos(), connection_id),
    {
        match self.client.connection_info(connection_id) {
            Some(info) => match &info.username {
                Some(username) => username.clone(),
                None => {
                    let mut tag = String::new();
                    string_push(&mut tag, '?');
                    push_decimal(&mut tag, connection_id);
                    proof {
                        assert(tag@ =~= seq!['?'] + decimal(connection_id as nat));
                    }
                    tag
                },
            },
            None => {
                let mut tag = String::new();
                string_push(&mut tag, '!');
                push_decimal(&mut tag, connection_id);
                proof {
                    assert(tag@ =~= seq!['!'] + decimal(connection_id as nat));
                }
                tag
            },
        }
    }

    /// Appends the runs that name the peer `connection_id` to `text`.
    pub fn add_connection_spans(&self, connection_id: ClientId, text: &mut StyledText)
        requires
            self.connection().spec_client_id() is Some,
        ensures
            segments_view(final(text).spans@) == segments_view(old(text).spans@)
                + connection_segments(
                self.connection().infos(),
                self.connection().spec_client_id()->0,
                connection_id,
            ),
    {
        let self_id = match self.client.client_id() {
            Some(id) => id,
            None => {
                return ;
            },
        };
        let is_self = connection_id == self_id;
        let marker = if is_self {
            "~"
        } else {
            ""
        };
        let color = if is_self {
            Color::Cyan
        } else {
            Color::Green
        };
        let style = TerminalCellStyle::default().with_fg_color(color);
        let tag = self.get_display_tag(connection_id);
        let open = StyledSegment::plain("<");
        let mark = StyledSegment::styled(marker, style);
        let name = StyledSegment { text: tag, style };
        let close = StyledSegment::plain(">");
        let ghost start = text.spans@;
        text.add_span(open);
        text.add_span(mark);
        text.add_span(name);
        text.add_span(close);
        proof {
            reveal_strlit("~");
            reveal_strlit("");
            assert(text.spans@ == start.push(open).push(mark).push(name).push(close));
            assert(segment_view(mark) == colored(if is_self { seq!['~'] } else { Seq::empty() }, color));
            let added = connection_segments(self.connection().infos(), self_id, connection_id);
            assert(segments_view(text.spans@) =~= segments_view(old(text).spans@) + added);
        }
    }
}

impl<T> App<T> {
    /// The chat line `line` as a text widget, its peers named as
    /// [`App::add_connection_spans`] names them.
    pub fn build_chat_line_widget(&self, line: &ChatLine) -> (r: TextWidget)
        requires
            self.connection().spec_client_id() is Some,
        ensures
            segments_view(r.text()) == chat_line_segments(
                *line,
                self.connection().infos(),
                self.connection().spec_client_id()->0,
            ),
            r.computed_size() == None::<TerminalSize>,
            r.line_lengths() == Seq::<u16>::empty(),
    {
        let ghost infos = self.connection().infos();
        let ghost self_id = self.connection().spec_client_id()->0;
        let mut text = StyledText::new();
        match line {
            ChatLine::Text { peer_id, message } => {
                self.add_connection_spans(*peer_id, &mut text);
                let ghost mid = segments_view(text.spans@);
                text.add_span(StyledSegment::plain(": "));
                text.add_span(StyledSegment { text: message.clone(), style: TerminalCellStyle::default() });
                proof {
                    assert(segments_view(text.spans@) =~= mid + seq![plain(": "@), plain(message@)]);
                    assert(segments_view(text.spans@) =~= chat_line_segments(*line, infos, self_id));
                }
            },
            ChatLine::ConnectInfo { connection_id, peer_ids } => {
                let blue = TerminalCellStyle::default().with_fg_color(Color::Blue);
                text.add_span(StyledSegment::styled("---", blue));
                text.add_span(StyledSegment::plain(" connected as "));
                let ghost head = segments_view(text.spans@);
                proof {
                    assert(head =~= seq![colored("---"@, Color::Blue), plain(" connected as "@)]);
                }
                self.add_connection_spans(*connection_id, &mut text);
                let ghost start = segments_view(text.spans@);
                proof {
                    assert(peer_ids@.take(0) =~= Seq::<u64>::empty());
                    assert(start =~= start + peer_list_segments(infos, self_id, peer_ids@.take(0)));
                }
                let mut i: usize = 0;
                while i < peer_ids.len()
                    invariant
                        i <= peer_ids@.len(),
                        self.connection().spec_client_id() == Some(self_id),
                        self.connection().infos() == infos,
                        segments_view(text.spans@) == start + peer_list_segments(
                            infos,
                            self_id,
                            peer_ids@.take(i as int),
                        ),
                    decreases peer_ids@.len() - i,
                {
                    let before = Ghost(segments_view(text.spans@));
                    if i == 0 {
                        text.add_span(StyledSegment::plain(" to "));
                    } else {
                        text.add_span(StyledSegment::plain(", "));
                    }
                    let ghost sep = segments_view(text.spans@);
                    self.add_connection_spans(peer_ids[i], &mut text);
                    proof {
                        let next = peer_ids@.take(i + 1);
                        assert(next.drop_last() =~= peer_ids@.take(i as int));
                        assert(next.last() == peer_ids@[i as int]);
                        let added = connection_segments(infos, self_id, peer_ids@[i as int]);
                        if i == 0 {
                            assert(sep =~= before@ + seq![plain(" to "@)]);
                            assert(next.len() == 1);
                            assert(peer_list_segments(infos, self_id, next) == seq![plain(" to "@)]
                                + added);
                        } else {
                            assert(sep =~= before@ + seq![plain(", "@)]);
                            assert(peer_list_segments(infos, self_id, next) == peer_list_segments(
                                infos,
                                self_id,
                                peer_ids@.take(i as int),
                            ) + seq![plain(", "@)] + added);
                        }
                        assert(segments_view(text.spans@) =~= start + peer_list_segments(
                            infos,
                            self_id,
                            next,
                        ));
                    }
                    i = i + 1;
                }
                let ghost body = segments_view(text.spans@);
                text.add_span(StyledSegment::styled(" ---", blue));
                proof {
                    assert(peer_ids@.take(i as int) =~= peer_ids@);
                    assert(segments_view(text.spans@) =~= body + seq![colored(" ---"@, Color::Blue)]);
                    assert(segments_view(text.spans@) =~= chat_line_segments(*line, infos, self_id));
                }
            },
            ChatLine::Connected { peer_id } => {
                let blue = TerminalCellStyle::default().with_fg_color(Color::Blue);
                text.add_span(StyledSegment::styled(">> ", blue));
                let ghost head = segments_view(text.spans@);
                self.add_connection_spans(*peer_id, &mut text);
                let ghost mid = segments_view(text.spans@);
                text.add_span(StyledSegment::plain(" connected"));
                proof {
                    assert(head =~= seq![colored(">> "@, Color::Blue)]);
                    assert(segments_view(text.spans@) =~= mid + seq![plain(" connected"@)]);
                    assert(segments_view(text.spans@) =~= chat_line_segments(*line, infos, self_id));
                }
            },
            ChatLine::Disconnected { peer_id } => {
                let red = TerminalCellStyle::default().with_fg_color(Color::Red);
                text.add_span(StyledSegment::styled("<< ", red));
                let ghost head = segments_view(text.spans@);
                self.add_connection_spans(*peer_id, &mut text);
                let ghost mid = segments_view(text.spans@);
                text.add_span(StyledSegment::plain(" disconnected"));
                proof {
                    assert(head =~= seq![colored("<< "@, Color::Red)]);
                    assert(segments_view(text.spans@) =~= mid + seq![plain(" disconnected"@)]);
                    assert(segments_view(text.spans@) =~= chat_line_segments(*line, infos, self_id));
                }
            },
        }
        TextWidget::new(text)
    }
}

impl<T> App<T> {
    /// One text widget per chat line, in order, stacked in a vertical list.
    pub fn build_widget_tree(&self) -> (r: VerticalListWidget<TextWidget>)
        requires
            self.lines().len() > 0 ==> self.connection().spec_client_id() is Some,
        ensures
            r.children().len() == self.lines().len(),
            forall|i: int|
                0 <= i < self.lines().len() ==> segments_view(#[trigger] r.children()[i].text())
                    == chat_line_segments(
                    self.lines()[i],
                    self.connection().infos(),
                    self.connection().spec_client_id()->0,
                ),
            forall|i: int|
                0 <= i < self.lines().len() ==> (#[trigger] r.children()[i]).computed_size()
                    == None::<TerminalSize> && r.children()[i].line_lengths() == Seq::<u16>::empty(),
            r.child_sizes() == Seq::<TerminalSize>::empty(),
            r.computed_size() == None::<TerminalSize>,
    {
        let mut children: Vec<TextWidget> = Vec::new();
        let mut i: usize = 0;
        while i < self.chat_lines.len()
            invariant
                i <= self.lines().len(),
                self.lines().len() > 0 ==> self.connection().spec_client_id() is Some,
                children@.len() == i,
                forall|j: int|
                    0 <= j < i ==> segments_view(#[trigger] children@[j].text()) == chat_line_segments(
                        self.lines()[j],
                        self.connection().infos(),
                        self.connection().spec_client_id()->0,
                    ),
                forall|j: int|
                    0 <= j < i ==> (#[trigger] children@[j]).computed_size() == None::<TerminalSize>
                        && children@[j].line_lengths() == Seq::<u16>::empty(),
            decreases self.lines().len() - i,
        {
            let widget = self.build_chat_line_widget(&self.chat_lines[i]);
            children.push(widget);
            i = i + 1;
        }
        VerticalListWidget::new(children)
    }

    /// Lays the chat out on a screen of `size` and draws it on a blank screen:
    /// the screen's cells, row by row.
    pub fn render_message_ui(&self, size: TerminalSize) -> (r: Vec<TerminalCell>)
        requires
            0 <= size.width <= u16::MAX,
            0 <= size.height <= u16::MAX,
            self.lines().len() > 0 ==> self.connection().spec_client_id() is Some && size.width > 0,
        ensures
            r@.len() == size.width * size.height,
            shows_chat(
                r@,
                self.lines(),
                self.connection().infos(),
                self.connection().spec_client_id()->0,
                size,
            ),
    {
        let mut widget = self.build_widget_tree();
        let ghost tree = widget;
        let constraints = BoxConstraints {
            width: AxisConstraint::bounded_maximum(size.width as u16),
            height: AxisConstraint::bounded_maximum(size.height as u16),
        };
        proof {
            let children = widget.children();
            assert forall|i: int| 0 <= i < children.len() implies (
            #[trigger] children[i]).can_layout(
                super::widget::list::stacked_child_constraints(constraints),
            ) by {
                assert(size.width > 0);
            }
        }
        let extent = widget.layout(constraints);
        let ghost laid_out = widget;
        proof {
            let w = size.width as int;
            let h = size.height as int;
            assert(w * h <= 0xffff * 0xffff) by (nonlinear_arith)
                requires
                    0 <= w <= 0xffff,
                    0 <= h <= 0xffff,
            ;
        }
        let cells = size.width as usize * size.height as usize;
        let mut buffer: Vec<TerminalCell> = Vec::new();
        let mut i: usize = 0;
        while i < cells
            invariant
                i <= cells,
                buffer@ == blank_screen(i as nat),
            decreases cells - i,
        {
            buffer.push(TerminalCell::default());
            i = i + 1;
            proof {
                assert(buffer@ =~= blank_screen(i as nat));
            }
        }
        let mut frame = Frame::root(size, buffer);
        widget.render(&mut frame);
        let r = frame.into_buffer();
        proof {
            let infos = self.connection().infos();
            let self_id = self.connection().spec_client_id()->0;
            assert(is_chat_tree(tree, self.lines(), infos, self_id));
            assert(constraints == screen_constraints(size));
            assert(chat_drawn_as(r@, tree, laid_out, extent, size));
        }
        r
    }

    /// Reacts to a key press: Control-`c` exits; Backspace, a character key
    /// and Enter edit the message being typed, and Enter sends it.
    pub fn handle_input_event_main(&mut self, event: TerminalEvent) -> (r: ControlFlow)
        requires
            is_enter(event) ==> old(self).connection().spec_client_id() is Some,
        ensures
            final(self).connection() == old(self).connection(),
            final(self).lines() == old(self).lines(),
            is_interrupt(event) ==> r is Exit && final(self).draft() == old(self).draft(),
            !is_interrupt(event) ==> final(self).draft() == edited_draft(event, old(self).draft()),
            !is_interrupt(event) && is_enter(event) ==> (r matches ControlFlow::SendMessage {
                self_id,
                line,
            } && self_id == old(self).connection().spec_client_id()->0 && line@ == old(self).draft()),
            !is_interrupt(event) && !is_enter(event) ==> r is Continue,
    {
        match event {
            TerminalEvent::Key(key) => match key.kind {
                KeyEventKind::Char(ch) => {
                    if ch == 'c' && key.modifiers.control {
                        return ControlFlow::Exit;
                    }
                    string_push(&mut self.current_message_text, ch);
                    ControlFlow::Continue
                },
                KeyEventKind::Backspace => {
                    string_pop(&mut self.current_message_text);
                    ControlFlow::Continue
                },
                KeyEventKind::Enter => {
                    let mut line = String::new();
                    core::mem::swap(&mut line, &mut self.current_message_text);
                    let self_id = match self.client.client_id() {
                        Some(id) => id,
                        None => {
                            return ControlFlow::Continue;
                        },
                    };
                    ControlFlow::SendMessage { self_id, line }
                },
                _ => ControlFlow::Continue,
            },
            _ => ControlFlow::Continue,
        }
    }

    /// Reacts to a packet from the server: a disconnected peer or a message
    /// becomes a chat line; a connected peer is handed on.
    pub fn handle_socket_event_main(&mut self, packet: ServerToClientPacket) -> (r: ControlFlow)
        requires
            !(packet is Response),
        ensures
            final(self).connection() == old(self).connection(),
            final(self).draft() == old(self).draft(),
            final(self).lines() == match packet_chat_line(packet) {
                Some(line) => old(self).lines().push(line),
                None => old(self).lines(),
            },
            match packet {
                ServerToClientPacket::PeerConnected { peer_id } => r == (ControlFlow::PeerConnected {
                    peer_id,
                }),
                _ => r is Continue,
            },
    {
        match packet {
            ServerToClientPacket::PeerConnected { peer_id } => ControlFlow::PeerConnected { peer_id },
            ServerToClientPacket::PeerDisonnected { peer_id } => {
                self.chat_lines.push(ChatLine::Disconnected { peer_id });
                ControlFlow::Continue
            },
            ServerToClientPacket::PeerMessage { peer_id, message } => {
                self.chat_lines.push(ChatLine::Text { peer_id, message });
                ControlFlow::Continue
            },
            ServerToClientPacket::Response { .. } => ControlFlow::Continue,
        }
    }

    /// Hands the event to the input or to the packet handler.
    pub fn handle_event_main(&mut self, event: AppEvent) -> (r: ControlFlow)
        requires
            match event {
                AppEvent::IncomingPacket(packet) => !(packet is Response),
                AppEvent::Input(input) => is_enter(input) ==> old(self).connection().spec_client_id() is Some,
            },
        ensures
            match event {
                AppEvent::IncomingPacket(packet) => final(self).connection() == old(self).connection()
                    && final(self).draft() == old(self).draft() && final(self).lines() == match packet_chat_line(packet) {
                        Some(line) => old(self).lines().push(line),
                        None => old(self).lines(),
                    },
                AppEvent::Input(input) => final(self).connection() == old(self).connection()
                    && final(self).lines() == old(self).lines() && (if is_interrupt(input) {
                        r is Exit && final(self).draft() == old(self).draft()
                    } else {
                        final(self).draft() == edited_draft(input, old(self).draft())
                    }),
            },
            match event {
                AppEvent::IncomingPacket(packet) => match packet {
                    ServerToClientPacket::PeerConnected { peer_id } => r == (ControlFlow::PeerConnected {
                        peer_id,
                    }),
                    _ => r is Continue,
                },
                AppEvent::Input(input) => if is_interrupt(input) {
                    r is Exit
                } else if is_enter(input) {
                    (r matches ControlFlow::SendMessage { self_id, line } && self_id == old(
                        self,
                    ).connection().spec_client_id()->0 && line@ == old(self).draft())
                } else {
                    r is Continue
                },
            },
    {
        match event {
            AppEvent::IncomingPacket(packet) => self.handle_socket_event_main(packet),
            AppEvent::Input(input) => self.handle_input_event_main(input),
        }
    }

    /// Carries out a command from a task: adds the chat line it brings.
    pub fn handle_command(&mut self, cmd: AppCommand) -> (r: ControlFlow)
        ensures
            r is Continue,
            final(self).connection() == old(self).connection(),
            final(self).draft() == old(self).draft(),
            match cmd {
                AppCommand::AddChatLine(line) => final(self).lines() == old(self).lines().push(line),
            },
    {
        match cmd {
            AppCommand::AddChatLine(line) => self.chat_lines.push(line),
        }
        ControlFlow::Continue
    }
}

/// The last `num` items of `slice`, or all of them when there are fewer.
pub fn last_of<T>(num: usize, slice: &[T]) -> (r: &[T])
    ensures
        slice@.len() <= num ==> r@ == slice@,
        slice@.len() > num ==> r@ == slice@.skip(slice@.len() - num),
{
    if slice.len() <= num {
        slice
    } else {
        vstd::slice::slice_subrange(slice, slice.len() - num, slice.len())
    }
}

} // verus!
