use std::collections::HashMap;

use chatserver::client::app::{last_of, App, AppCommand, AppEvent, ChatLine, ControlFlow};
use chatserver::client::backend::{plan_redraw, DrawCommand};
use chatserver::client::connection_handler::{
    ConnectionHandlerCommand, ConnectionHandlerEvent, ConnectionState, Routing,
};
use chatserver::client::net_handlers::{
    connect_response_step, message_response_step, peer_info_commands, peer_info_response_step,
};
use chatserver::client::terminal::{
    Color, Frame, KeyEventKind, KeyModifiers, TerminalCell, TerminalCellStyle, TerminalEvent, TerminalKeyEvent,
    TerminalPos, TerminalRect, TerminalSize,
};
use chatserver::client::widget::list::{horizontal, VerticalListWidget, WrappedListWidget};
use chatserver::client::widget::text::{StyledSegment, StyledText, TextWidget};
use chatserver::client::widget::{
    apply_axis_constraint, apply_constraints, clamp_to_u16, AxisConstraint, BoxConstraints, Widget,
};
use chatserver::client::ClientError;
use chatserver::common::packet::{
    ClientToServerPacket, ClientToServerPacketKind, PeerInfo, ResponseId, ServerToClientPacket,
    ServerToClientResponsePacket,
};
use chatserver::common::CommonError;

fn size(width: i32, height: i32) -> TerminalSize {
    TerminalSize { width, height }
}

fn key(kind: KeyEventKind) -> TerminalEvent {
    TerminalEvent::Key(TerminalKeyEvent {
        kind,
        modifiers: KeyModifiers { control: false, shift: false, alt: false },
    })
}

fn row_text(cells: &[TerminalCell], width: usize, row: usize) -> String {
    cells[row * width..(row + 1) * width].iter().map(|c| c.character.unwrap_or(' ')).collect()
}

fn draw<W: Widget>(widget: &W, screen: TerminalSize) -> Vec<TerminalCell> {
    let cells = vec![TerminalCell::default(); (screen.width * screen.height) as usize];
    let mut frame = Frame::root(screen, cells);
    widget.render(&mut frame);
    frame.into_buffer()
}

#[test]
fn rectangles_move_and_measure() {
    let rect = TerminalRect::from_size(size(5, 3));
    assert_eq!(rect.start, TerminalPos { column: 0, row: 0 });
    assert_eq!(rect.end, TerminalPos { column: 5, row: 3 });
    assert_eq!((rect.width(), rect.height()), (5, 3));
    let moved = rect.offset_rows(2).offset_columns(-1);
    assert_eq!(moved.start, TerminalPos { column: -1, row: 2 });
    assert_eq!(moved.end, TerminalPos { column: 4, row: 5 });
    assert_eq!(TerminalPos { column: 1, row: 2 } + TerminalPos { column: 3, row: 4 }, TerminalPos { column: 4, row: 6 });
    assert_eq!(TerminalPos { column: 1, row: 2 } + size(3, 4), TerminalPos { column: 4, row: 6 });
}

#[test]
fn styles_and_cells_default_to_reset() {
    assert_eq!(Color::default(), Color::Reset);
    let style = TerminalCellStyle::default();
    assert_eq!(style.foreground_color, Color::Reset);
    assert_eq!(style.background_color, Color::Reset);
    assert_eq!(style.with_fg_color(Color::Red).foreground_color, Color::Red);
    // setting the background color sets the foreground color, as it always has
    let style = TerminalCellStyle::default().with_bg_color(Color::Blue);
    assert_eq!(style.foreground_color, Color::Blue);
    assert_eq!(style.background_color, Color::Reset);
    assert_eq!(TerminalCell::default().character, None);
}

#[test]
fn a_frame_gives_back_what_was_put() {
    let mut frame = Frame::root(size(4, 2), vec![TerminalCell::default(); 8]);
    let cell = TerminalCell { style: TerminalCellStyle::default(), character: Some('x') };
    frame.put(TerminalPos { column: 1, row: 1 }, cell);
    assert_eq!(frame.get(TerminalPos { column: 1, row: 1 }), Some(&cell));
    assert_eq!(frame.get(TerminalPos { column: 0, row: 0 }), Some(&TerminalCell::default()));
    assert_eq!(frame.get(TerminalPos { column: 5, row: 0 }), None);
    assert_eq!(frame.get(TerminalPos { column: -1, row: 0 }), None);
    assert_eq!((frame.width(), frame.height()), (4, 2));
    // putting outside the screen changes nothing
    frame.put(TerminalPos { column: 4, row: 0 }, cell);
    let cells = frame.into_buffer();
    assert_eq!(cells[5], cell);
    assert_eq!(cells.iter().filter(|c| c.character.is_some()).count(), 1);
}

#[test]
fn constraints_clamp_values() {
    let c = AxisConstraint::bounded(2, 5);
    assert_eq!(apply_axis_constraint(c, 9), 5);
    assert_eq!(apply_axis_constraint(c, 1), 2);
    assert_eq!(apply_axis_constraint(c, 3), 3);
    for value in [0u16, 2, 4, 5, 9, u16::MAX] {
        let once = apply_axis_constraint(c, value);
        assert_eq!(apply_axis_constraint(c, once), once);
        assert!(!c.overflows(once) && !c.underflows(once));
    }
    assert_eq!(apply_axis_constraint(AxisConstraint::unconstrained(), 700), 700);
    assert_eq!(apply_axis_constraint(AxisConstraint::bounded_minimum(4), 1), 4);
    assert_eq!(apply_axis_constraint(AxisConstraint::bounded_maximum(4), 9), 4);
    // a minimum above the maximum wins
    assert_eq!(apply_axis_constraint(AxisConstraint::bounded(6, 3), 4), 6);
    assert!(c.overflows(6));
    assert!(!c.overflows(5));
    assert!(c.underflows(1));
    assert!(!AxisConstraint::unconstrained().underflows(0));
    assert!(c.overflows_extent(70000));
    let b = BoxConstraints { width: AxisConstraint::bounded_maximum(3), height: AxisConstraint::bounded_minimum(2) };
    assert_eq!(apply_constraints(b, 10, 1), size(3, 2));
    let d = BoxConstraints::default();
    assert_eq!(d.width, AxisConstraint::unconstrained());
    assert_eq!(clamp_to_u16(-3), 0);
    assert_eq!(clamp_to_u16(70000), u16::MAX);
    assert_eq!(clamp_to_u16(12), 12);
}

#[test]
fn text_wraps_at_the_maximum_width() {
    let mut widget = TextWidget::new(StyledText::from_str("hello"));
    let constraints = BoxConstraints { width: AxisConstraint::bounded_maximum(3), height: AxisConstraint::unconstrained() };
    assert_eq!(widget.layout(constraints), size(3, 2));
    let cells = draw(&widget, size(4, 2));
    assert_eq!(row_text(&cells, 4, 0), "hel ");
    assert_eq!(row_text(&cells, 4, 1), "lo  ");
}

#[test]
fn text_keeps_the_styles_of_its_runs() {
    let red = TerminalCellStyle::default().with_fg_color(Color::Red);
    let text = StyledText::new().with_span(StyledSegment::plain("a")).with_span(StyledSegment::styled("b", red));
    let mut widget = TextWidget::new(text);
    assert_eq!(widget.layout(BoxConstraints::default()), size(2, 1));
    let cells = draw(&widget, size(2, 1));
    assert_eq!(cells[0].character, Some('a'));
    assert_eq!(cells[0].style, TerminalCellStyle::default());
    assert_eq!(cells[1].character, Some('b'));
    assert_eq!(cells[1].style, red);
}

#[test]
fn styled_text_is_built_in_order() {
    let mut text = StyledText::new();
    text.add_span(StyledSegment::plain("x")).add_span(StyledSegment::plain("y"));
    assert_eq!(text.spans.len(), 2);
    assert_eq!(text.spans[1].text, "y");
    let text = StyledText::from_spans(vec![StyledSegment::plain("z")]);
    assert_eq!(text.spans[0].text, "z");
    let text = StyledText::from_string(String::from("w"));
    assert_eq!(text.spans.len(), 1);
    assert_eq!(text.spans[0].text, "w");
    assert_eq!(text.spans[0].style, TerminalCellStyle::default());
}

#[test]
fn a_vertical_list_stacks_its_children() {
    let mut list = VerticalListWidget::new(vec![
        TextWidget::new(StyledText::from_str("ab")),
        TextWidget::new(StyledText::from_str("cde")),
    ]);
    let constraints = BoxConstraints { width: AxisConstraint::bounded_maximum(10), height: AxisConstraint::bounded_maximum(10) };
    assert_eq!(list.layout(constraints), size(3, 2));
    let cells = draw(&list, size(3, 2));
    assert_eq!(row_text(&cells, 3, 0), "ab ");
    assert_eq!(row_text(&cells, 3, 1), "cde");
}

#[test]
fn a_vertical_list_skips_what_cannot_be_seen() {
    let mut list = VerticalListWidget::new(vec![
        TextWidget::new(StyledText::from_str("one")),
        TextWidget::new(StyledText::from_str("two")),
        TextWidget::new(StyledText::from_str("six")),
    ]);
    let constraints = BoxConstraints { width: AxisConstraint::bounded_maximum(10), height: AxisConstraint::bounded_maximum(1) };
    // the last child fills the one row; laying out stops after the next
    assert_eq!(list.layout(constraints), size(3, 1));
}

#[test]
fn a_wrapped_list_wraps_its_children() {
    let mut list = WrappedListWidget::new(vec![
        TextWidget::new(StyledText::from_str("ab")),
        TextWidget::new(StyledText::from_str("cd")),
    ]);
    let narrow = BoxConstraints { width: AxisConstraint::bounded_maximum(3), height: AxisConstraint::unconstrained() };
    assert_eq!(list.layout(narrow), size(2, 2));
    let cells = draw(&list, size(3, 2));
    assert_eq!(row_text(&cells, 3, 0), "ab ");
    assert_eq!(row_text(&cells, 3, 1), "cd ");

    let mut pair = horizontal(TextWidget::new(StyledText::from_str("ab")), TextWidget::new(StyledText::from_str("cd")));
    let wide = BoxConstraints { width: AxisConstraint::bounded_maximum(10), height: AxisConstraint::unconstrained() };
    assert_eq!(pair.layout(wide), size(4, 1));
    let cells = draw(&pair, size(4, 1));
    assert_eq!(row_text(&cells, 4, 0), "abcd");
}

#[test]
fn responses_go_to_the_waiting_task() {
    let mut state: ConnectionState<&str> = ConnectionState::new();
    let first = state.register_task("first");
    let second = state.register_task("second");
    assert_eq!((first, second), (ResponseId(0), ResponseId(1)));
    assert_eq!(state.task(first), Some(&"first"));
    let response = ServerToClientPacket::Response { rid: second, packet: ServerToClientResponsePacket::MessageAck {} };
    match state.route(ConnectionHandlerEvent::Packet(response)) {
        Routing::ToTask(rid, packet) => {
            assert_eq!(rid, second);
            assert_eq!(packet, ServerToClientResponsePacket::MessageAck {});
        }
        _ => panic!("the response should reach its task"),
    }
    assert!(matches!(state.route(ConnectionHandlerEvent::DeadTask(second)), Routing::Handled));
    assert_eq!(state.task(second), None);
    let late = ServerToClientPacket::Response { rid: second, packet: ServerToClientResponsePacket::ShutdownAck {} };
    assert!(matches!(state.route(ConnectionHandlerEvent::Packet(late)), Routing::Dropped));
    // identifiers are never handed out twice
    assert_eq!(state.register_task("third"), ResponseId(2));
}

#[test]
fn other_packets_and_commands_are_routed() {
    let mut state: ConnectionState<()> = ConnectionState::new();
    let packet = ServerToClientPacket::PeerConnected { peer_id: 4 };
    match state.route(ConnectionHandlerEvent::Packet(packet.clone())) {
        Routing::ToApplication(p) => assert_eq!(p, packet),
        _ => panic!("should reach the application"),
    }
    let request = ClientToServerPacket { rid: ResponseId(0), kind: ClientToServerPacketKind::Shutdown {} };
    match state.route(ConnectionHandlerEvent::Command(ConnectionHandlerCommand::SendPacket(request.clone()))) {
        Routing::Write(p) => assert_eq!(p, request),
        _ => panic!("should be written"),
    }
    state.route(ConnectionHandlerEvent::Command(ConnectionHandlerCommand::SetConnectionId(8)));
    assert_eq!(state.client_id(), Some(8));
    state.handle_command(ConnectionHandlerCommand::AddPeer(3));
    assert_eq!(state.peer_ids(), &vec![3]);
    let info = PeerInfo { username: Some(String::from("x")) };
    state.handle_command(ConnectionHandlerCommand::AddConnectionInfo { client_id: 3, info: info.clone() });
    assert_eq!(state.connection_info(3), Some(&info));
    assert_eq!(state.connection_info(4), None);
}

#[test]
fn peer_info_responses_become_commands() {
    let mut peers = HashMap::new();
    peers.insert(1u64, PeerInfo { username: Some(String::from("a")) });
    peers.insert(2u64, PeerInfo { username: None });
    let cmds = peer_info_commands(&peers);
    assert_eq!(cmds.len(), 2);
    let mut state: ConnectionState<()> = ConnectionState::new();
    for cmd in cmds {
        state.handle_command(cmd);
    }
    assert_eq!(state.connection_info(1), peers.get(&1));
    assert_eq!(state.connection_info(2), peers.get(&2));
}

fn connected_app(id: u64) -> App<()> {
    let mut app = App::new(ConnectionState::new());
    app.client_mut().handle_command(ConnectionHandlerCommand::SetConnectionId(id));
    app
}

#[test]
fn peers_are_named_by_what_is_known() {
    let mut app = connected_app(5);
    assert_eq!(app.get_display_tag(5), "!5");
    assert_eq!(app.get_display_tag(123), "!123");
    app.client_mut().handle_command(ConnectionHandlerCommand::AddConnectionInfo {
        client_id: 5,
        info: PeerInfo { username: None },
    });
    assert_eq!(app.get_display_tag(5), "?5");
    app.client_mut().handle_command(ConnectionHandlerCommand::AddConnectionInfo {
        client_id: 5,
        info: PeerInfo { username: Some(String::from("bob")) },
    });
    assert_eq!(app.get_display_tag(5), "bob");
}

#[test]
fn typing_edits_and_enter_sends() {
    let mut app = connected_app(5);
    assert!(matches!(app.handle_input_event_main(key(KeyEventKind::Char('h'))), ControlFlow::Continue));
    app.handle_input_event_main(key(KeyEventKind::Char('i')));
    app.handle_input_event_main(key(KeyEventKind::Char('!')));
    app.handle_input_event_main(key(KeyEventKind::Backspace));
    assert_eq!(app.current_message_text(), "hi");
    app.handle_input_event_main(key(KeyEventKind::Left));
    assert_eq!(app.current_message_text(), "hi");
    match app.handle_input_event_main(key(KeyEventKind::Enter)) {
        ControlFlow::SendMessage { self_id, line } => {
            assert_eq!(self_id, 5);
            assert_eq!(line, "hi");
        }
        other => panic!("unexpected {:?}", other),
    }
    assert_eq!(app.current_message_text(), "");
    app.handle_input_event_main(key(KeyEventKind::Backspace));
    assert_eq!(app.current_message_text(), "");
}

#[test]
fn control_c_exits() {
    let mut app = connected_app(1);
    let event = TerminalEvent::Key(TerminalKeyEvent {
        kind: KeyEventKind::Char('c'),
        modifiers: KeyModifiers { control: true, shift: false, alt: false },
    });
    assert!(matches!(app.handle_input_event_main(event), ControlFlow::Exit));
    assert_eq!(app.current_message_text(), "");
    assert!(matches!(app.handle_event_main(AppEvent::Input(key(KeyEventKind::Char('c')))), ControlFlow::Continue));
    assert_eq!(app.current_message_text(), "c");
}

#[test]
fn packets_and_commands_add_chat_lines() {
    let mut app = connected_app(1);
    let flow = app.handle_socket_event_main(ServerToClientPacket::PeerMessage { peer_id: 2, message: String::from("yo") });
    assert!(matches!(flow, ControlFlow::Continue));
    app.handle_event_main(AppEvent::IncomingPacket(ServerToClientPacket::PeerDisonnected { peer_id: 2 }));
    match app.handle_socket_event_main(ServerToClientPacket::PeerConnected { peer_id: 3 }) {
        ControlFlow::PeerConnected { peer_id } => assert_eq!(peer_id, 3),
        other => panic!("unexpected {:?}", other),
    }
    assert!(matches!(app.handle_command(AppCommand::AddChatLine(ChatLine::Connected { peer_id: 3 })), ControlFlow::Continue));
    assert_eq!(
        app.chat_lines(),
        &vec![
            ChatLine::Text { peer_id: 2, message: String::from("yo") },
            ChatLine::Disconnected { peer_id: 2 },
            ChatLine::Connected { peer_id: 3 },
        ]
    );
}

#[test]
fn the_chat_is_drawn_line_by_line() {
    let mut app = connected_app(1);
    app.handle_command(AppCommand::AddChatLine(ChatLine::Connected { peer_id: 7 }));
    app.handle_command(AppCommand::AddChatLine(ChatLine::Text { peer_id: 1, message: String::from("hi") }));
    app.handle_command(AppCommand::AddChatLine(ChatLine::ConnectInfo { connection_id: 1, peer_ids: vec![7, 8] }));
    let cells = app.render_message_ui(size(40, 3));
    assert_eq!(cells.len(), 120);
    assert_eq!(row_text(&cells, 40, 0).trim_end(), ">> <!7> connected");
    assert_eq!(row_text(&cells, 40, 1).trim_end(), "<~!1>: hi");
    assert_eq!(row_text(&cells, 40, 2).trim_end(), "--- connected as <~!1> to <!7>, <!8> ---");
    assert_eq!(cells[0].style.foreground_color, Color::Blue);
    assert_eq!(cells[3].style.foreground_color, Color::Reset);
    assert_eq!(cells[4].style.foreground_color, Color::Green);
    assert_eq!(cells[41].style.foreground_color, Color::Cyan);
}

#[test]
fn an_empty_chat_draws_blanks() {
    let app: App<()> = App::new(ConnectionState::new());
    let cells = app.render_message_ui(size(3, 2));
    assert_eq!(cells, vec![TerminalCell::default(); 6]);
}

#[test]
fn last_of_keeps_the_tail() {
    assert_eq!(last_of(2, &[1, 2, 3]), &[2, 3]);
    assert_eq!(last_of(5, &[1, 2, 3]), &[1, 2, 3]);
    assert_eq!(last_of(0, &[1]), &[] as &[i32]);
}

#[test]
fn redraws_send_only_color_changes() {
    let red = TerminalCellStyle::default().with_fg_color(Color::Red);
    let cells = vec![
        TerminalCell { style: TerminalCellStyle::default(), character: Some('a') },
        TerminalCell { style: red, character: None },
    ];
    let mut prev = size(0, 0);
    let first = plan_redraw(&mut prev, size(2, 1), &cells);
    assert_eq!(
        first,
        vec![
            DrawCommand::ClearAll,
            DrawCommand::HideCursor,
            DrawCommand::MoveTo { column: 0, row: 0 },
            DrawCommand::Print('a'),
            DrawCommand::SetBackgroundColor(Color::Reset),
            DrawCommand::SetForegroundColor(Color::Red),
            DrawCommand::Print(' '),
            DrawCommand::SetBackgroundColor(Color::Reset),
            DrawCommand::ShowCursor,
        ]
    );
    assert_eq!(prev, size(2, 1));
    let second = plan_redraw(&mut prev, size(2, 1), &cells);
    assert_eq!(second[0], DrawCommand::HideCursor);
    assert_eq!(second.len(), first.len() - 1);
}

#[test]
fn redraws_move_to_each_row() {
    let blue_bg = TerminalCellStyle { foreground_color: Color::Reset, background_color: Color::Blue };
    let cells = vec![TerminalCell { style: blue_bg, character: Some('q') }; 2];
    let mut prev = size(1, 2);
    let commands = plan_redraw(&mut prev, size(1, 2), &cells);
    assert_eq!(
        commands,
        vec![
            DrawCommand::HideCursor,
            DrawCommand::MoveTo { column: 0, row: 0 },
            DrawCommand::SetBackgroundColor(Color::Blue),
            DrawCommand::Print('q'),
            DrawCommand::SetBackgroundColor(Color::Reset),
            DrawCommand::MoveTo { column: 0, row: 1 },
            DrawCommand::Print('q'),
            DrawCommand::SetBackgroundColor(Color::Reset),
            DrawCommand::ShowCursor,
        ]
    );
}

#[test]
fn client_errors_convert() {
    let err: ClientError = std::io::Error::new(std::io::ErrorKind::Other, "x").into();
    assert!(matches!(err, ClientError::Common(CommonError::Io(_))));
    let err: ClientError = CommonError::ConnectionReset.into();
    assert!(matches!(err, ClientError::Common(CommonError::ConnectionReset)));
    let err: chatserver::error::ClientError = std::io::Error::new(std::io::ErrorKind::Other, "y").into();
    assert!(matches!(err, chatserver::error::ClientError::Io(_)));
}

#[test]
fn text_is_drawn_cell_by_cell_in_reading_order() {
    let mut widget = TextWidget::new(StyledText::from_str("abcdefg"));
    let constraints = BoxConstraints { width: AxisConstraint::bounded_maximum(3), height: AxisConstraint::unconstrained() };
    assert_eq!(widget.layout(constraints), size(3, 3));
    let cells = draw(&widget, size(3, 3));
    assert_eq!(row_text(&cells, 3, 0), "abc");
    assert_eq!(row_text(&cells, 3, 1), "def");
    assert_eq!(row_text(&cells, 3, 2), "g  ");

    let mut line = TextWidget::new(StyledText::from_str("abcd"));
    assert_eq!(line.layout(BoxConstraints::default()), size(4, 1));
    let cells = draw(&line, size(5, 1));
    assert_eq!(row_text(&cells, 5, 0), "abcd ");
}

#[test]
fn a_wrapped_list_gives_each_child_its_own_cells() {
    let mut list = WrappedListWidget::new(vec![
        TextWidget::new(StyledText::from_str("ab")),
        TextWidget::new(StyledText::from_str("cde")),
        TextWidget::new(StyledText::from_str("f")),
    ]);
    let constraints = BoxConstraints { width: AxisConstraint::bounded_maximum(4), height: AxisConstraint::unconstrained() };
    assert_eq!(list.layout(constraints), size(4, 2));
    let cells = draw(&list, size(4, 2));
    assert_eq!(row_text(&cells, 4, 0), "ab  ");
    assert_eq!(row_text(&cells, 4, 1), "cdef");
}

#[test]
fn a_vertical_list_draws_from_the_top() {
    let mut list = VerticalListWidget::new(vec![
        TextWidget::new(StyledText::from_str("one")),
        TextWidget::new(StyledText::from_str("two")),
        TextWidget::new(StyledText::from_str("six")),
    ]);
    let constraints = BoxConstraints { width: AxisConstraint::bounded_maximum(10), height: AxisConstraint::bounded_maximum(1) };
    assert_eq!(list.layout(constraints), size(3, 1));
    // "two" starts at the maximum height and is still laid out; it is drawn
    // first, and "six" falls below the frame
    let cells = draw(&list, size(3, 1));
    assert_eq!(row_text(&cells, 3, 0), "two");
}

#[test]
fn server_answers_become_commands_or_errors() {
    let (id, cmd) = connect_response_step(ServerToClientResponsePacket::ConnectAck { connection_id: 7 }).unwrap();
    assert_eq!(id, 7);
    assert!(matches!(cmd, ConnectionHandlerCommand::SetConnectionId(7)));
    assert!(matches!(
        connect_response_step(ServerToClientResponsePacket::MessageAck {}),
        Err(ClientError::NoConnectAck)
    ));

    let mut peers = HashMap::new();
    peers.insert(3u64, PeerInfo { username: Some(String::from("ann")) });
    let cmds = peer_info_response_step(&ServerToClientResponsePacket::PeerInfoResponse { peers }).unwrap();
    assert_eq!(cmds.len(), 1);
    match &cmds[0] {
        ConnectionHandlerCommand::AddConnectionInfo { client_id, info } => {
            assert_eq!(*client_id, 3);
            assert_eq!(info.username.as_deref(), Some("ann"));
        }
        _ => panic!("expected a peer record"),
    }
    assert!(matches!(
        peer_info_response_step(&ServerToClientResponsePacket::ConnectAck { connection_id: 1 }),
        Err(ClientError::NoPeerInfoResponse)
    ));

    match message_response_step(&ServerToClientResponsePacket::MessageAck {}, 4, String::from("hi")) {
        Ok(AppCommand::AddChatLine(ChatLine::Text { peer_id, message })) => {
            assert_eq!(peer_id, 4);
            assert_eq!(message, "hi");
        }
        _ => panic!("expected the sent line"),
    }
    assert!(matches!(
        message_response_step(&ServerToClientResponsePacket::ShutdownAck {}, 4, String::from("hi")),
        Err(ClientError::NoMessageAck)
    ));
}

#[test]
fn app_events_give_the_flow_to_follow() {
    let mut app = connected_app(5);
    assert!(matches!(
        app.handle_event_main(AppEvent::IncomingPacket(ServerToClientPacket::PeerConnected { peer_id: 9 })),
        ControlFlow::PeerConnected { peer_id: 9 }
    ));
    assert!(matches!(
        app.handle_event_main(AppEvent::IncomingPacket(ServerToClientPacket::PeerDisonnected { peer_id: 9 })),
        ControlFlow::Continue
    ));
    assert!(matches!(app.handle_event_main(AppEvent::Input(key(KeyEventKind::Char('h')))), ControlFlow::Continue));
    match app.handle_event_main(AppEvent::Input(key(KeyEventKind::Enter))) {
        ControlFlow::SendMessage { self_id, line } => {
            assert_eq!(self_id, 5);
            assert_eq!(line, "h");
        }
        _ => panic!("expected the typed line to be sent"),
    }
}
