use portkube::kube::context::KubeContext;
use portkube::kube::services::{KubeService, ServicePort as KubeServicePort};
use portkube::network::ipv4::Ipv4Addr;
use portkube::network::service_map::ServiceEntry;
use portkube::tui::app::{App, ContextRow, Mode, Screen, SplashState};
use portkube::tui::ui::{
    bar_width, draw_connecting_splash, draw_contexts, draw_header, draw_main_layout, draw_services, draw_splash,
    draw_status_bar, header_fg, key_span, place_splash, render, selected_bg, sep, Alignment, Area, Border, Color,
    Draw, Gauge, Line, Paragraph, Row, Style, Table, Widget, HIGHLIGHT_SYMBOL, LOGO_BIG, LOGO_SMALL,
    VERSION,
};
use ratatui::backend::TestBackend;
use ratatui::Terminal;

// ── Painting on a test terminal ─────────────────────────

fn paint_color(c: Color) -> ratatui::style::Color {
    match c {
        Color::White => ratatui::style::Color::White,
        Color::DarkGray => ratatui::style::Color::DarkGray,
        Color::Cyan => ratatui::style::Color::Cyan,
        Color::Green => ratatui::style::Color::Green,
        Color::Yellow => ratatui::style::Color::Yellow,
        Color::Red => ratatui::style::Color::Red,
        Color::Rgb(r, g, b) => ratatui::style::Color::Rgb(r, g, b),
    }
}

fn paint_style(s: Style) -> ratatui::style::Style {
    let mut style = ratatui::style::Style::default();
    if let Some(c) = s.fg {
        style = style.fg(paint_color(c));
    }
    if let Some(c) = s.bg {
        style = style.bg(paint_color(c));
    }
    if s.bold {
        style = style.add_modifier(ratatui::style::Modifier::BOLD);
    }
    style
}

fn paint_line(line: &Line) -> ratatui::text::Line<'static> {
    let spans: Vec<ratatui::text::Span<'static>> = line
        .spans
        .iter()
        .map(|s| ratatui::text::Span::styled(s.text.clone(), paint_style(s.style)))
        .collect();
    ratatui::text::Line::from(spans).style(paint_style(line.style))
}

fn paint_text(p: &Paragraph) -> ratatui::widgets::Paragraph<'static> {
    let lines: Vec<ratatui::text::Line<'static>> = p.lines.iter().map(paint_line).collect();
    let alignment = match p.alignment {
        Alignment::Left => ratatui::layout::Alignment::Left,
        Alignment::Center => ratatui::layout::Alignment::Center,
        Alignment::Right => ratatui::layout::Alignment::Right,
    };
    let borders = match p.border {
        Border::Bare => ratatui::widgets::Borders::NONE,
        Border::Top => ratatui::widgets::Borders::TOP,
        Border::Bottom => ratatui::widgets::Borders::BOTTOM,
        Border::All => ratatui::widgets::Borders::ALL,
    };
    ratatui::widgets::Paragraph::new(lines)
        .alignment(alignment)
        .block(ratatui::widgets::Block::default().borders(borders))
}

fn paint_row(row: &Row) -> ratatui::widgets::Row<'static> {
    let cells: Vec<ratatui::widgets::Cell<'static>> =
        row.cells.iter().map(|c| ratatui::widgets::Cell::from(paint_line(c))).collect();
    ratatui::widgets::Row::new(cells).style(paint_style(row.style))
}

fn paint_list(t: &Table) -> ratatui::widgets::Table<'static> {
    let rows: Vec<ratatui::widgets::Row<'static>> = t.rows.iter().map(paint_row).collect();
    let widths: Vec<ratatui::layout::Constraint> =
        t.widths.iter().map(|w| ratatui::layout::Constraint::Min(*w)).collect();
    ratatui::widgets::Table::new(rows, widths)
        .header(paint_row(&t.header).bottom_margin(1))
        .block(
            ratatui::widgets::Block::default()
                .borders(ratatui::widgets::Borders::ALL)
                .title(t.title.text.clone()),
        )
        .row_highlight_style(ratatui::style::Style::default().bg(paint_color(selected_bg())))
        .highlight_symbol(HIGHLIGHT_SYMBOL)
}

fn show(terminal: &mut Terminal<TestBackend>, app: &App) {
    terminal
        .draw(|f| {
            let full = f.area();
            let area = Area { x: full.x, y: full.y, width: full.width, height: full.height };
            for draw in render(area, app, Gauge { filled: 10, percent: 50 }) {
                let a = draw.area;
                let rect =
                    ratatui::layout::Rect { x: a.x, y: a.y, width: a.width, height: a.height };
                match &draw.widget {
                    Widget::Text { paragraph } => f.render_widget(paint_text(paragraph), rect),
                    Widget::List { table } => {
                        let mut state = ratatui::widgets::TableState::default();
                        state.select(Some(table.selected));
                        f.render_stateful_widget(paint_list(table), rect, &mut state);
                    }
                }
            }
        })
        .unwrap();
}

fn shown(terminal: &Terminal<TestBackend>) -> String {
    let buffer = terminal.backend().buffer();
    let mut text = String::new();
    for y in 0..buffer.area.height {
        for x in 0..buffer.area.width {
            text.push_str(buffer.cell((x, y)).unwrap().symbol());
        }
        text.push('\n');
    }
    text
}


fn test_terminal() -> Terminal<TestBackend> {
    Terminal::new(TestBackend::new(120, 40)).unwrap()
}

fn app_splash() -> App {
    App::new() // default is Screen::Splash
}

fn app_contexts(n: usize) -> App {
    let mut app = App::new();
    app.screen = Screen::Contexts;
    app.contexts = (0..n)
        .map(|i| ContextRow {
            ctx: KubeContext {
                name: format!("ctx-{i}"),
                cluster: format!("cluster-{i}"),
                namespace: "default".into(),
                user: format!("user-{i}"),
                is_active: i == 0,
            },
        })
        .collect();
    app
}

fn app_services() -> App {
    let mut app = App::new();
    app.screen = Screen::Services;
    app.connected_context = Some("dev".into());
    app.services = vec![KubeService {
        name: "nginx".into(),
        namespace: "default".into(),
        service_type: "ClusterIP".into(),
        cluster_ip: "10.96.0.10".into(),
        ports: vec![KubeServicePort {
            port: 80,
            target_port: "80".into(),
            protocol: "TCP".into(),
            name: None,
        }],
    }];
    app.service_entries = vec![ServiceEntry {
        name: "nginx".into(),
        namespace: "default".into(),
        port: 80,
        cluster_ip: Ipv4Addr::new(10, 96, 0, 10),
    }];
    app
}

// ── Logo constants ──────────────────────────────────────

#[test]
fn test_logo_big_has_six_lines() {
    assert_eq!(LOGO_BIG.len(), 6);
}

#[test]
fn test_logo_small_has_three_lines() {
    assert_eq!(LOGO_SMALL.lines().count(), 3);
}

#[test]
fn test_version_not_empty() {
    assert!(!VERSION.is_empty());
}

// ── Render: splash ──────────────────────────────────────

#[test]
fn test_render_splash_no_panic() {
    let mut terminal = test_terminal();
    let app = app_splash();
    show(&mut terminal, &app);
}

// ── Render: contexts ────────────────────────────────────

#[test]
fn test_render_contexts_no_panic() {
    let mut terminal = test_terminal();
    let app = app_contexts(3);
    show(&mut terminal, &app);
}

#[test]
fn test_render_contexts_empty_no_panic() {
    let mut terminal = test_terminal();
    let app = app_contexts(0);
    show(&mut terminal, &app);
}

// ── Render: connecting splash ───────────────────────────

#[test]
fn test_render_connecting_splash_no_panic() {
    let mut terminal = test_terminal();
    let mut app = app_contexts(1);
    app.mode = Mode::Connecting;
    app.splash = SplashState::new();
    app.splash.total_steps = 5;
    app.splash.advance("Connecting...");
    show(&mut terminal, &app);
}

// ── Render: services ────────────────────────────────────

#[test]
fn test_render_services_no_panic() {
    let mut terminal = test_terminal();
    let app = app_services();
    show(&mut terminal, &app);
}

#[test]
fn test_render_services_empty_no_panic() {
    let mut terminal = test_terminal();
    let mut app = App::new();
    app.screen = Screen::Services;
    show(&mut terminal, &app);
}

// ── Render: with toast ──────────────────────────────────

#[test]
fn test_render_with_toast_no_panic() {
    let mut terminal = test_terminal();
    let mut app = app_contexts(1);
    app.show_toast("Test toast", false);
    show(&mut terminal, &app);
}

#[test]
fn test_render_with_error_toast_no_panic() {
    let mut terminal = test_terminal();
    let mut app = app_services();
    app.show_toast("Error occurred", true);
    show(&mut terminal, &app);
}

// ── Render: small terminal ──────────────────────────────

#[test]
fn test_render_small_terminal_no_panic() {
    let mut terminal = Terminal::new(TestBackend::new(40, 10)).unwrap();
    let app = app_services();
    show(&mut terminal, &app);
}

// ── Render: headless & multi-type services ──────────────

#[test]
fn test_render_services_various_types_no_panic() {
    let mut terminal = test_terminal();
    let mut app = App::new();
    app.screen = Screen::Services;
    app.connected_context = Some("dev".into());
    app.services = vec![
        KubeService {
            name: "lb".into(), namespace: "default".into(),
            service_type: "LoadBalancer".into(), cluster_ip: "10.96.0.1".into(),
            ports: vec![KubeServicePort { port: 80, target_port: "80".into(), protocol: "TCP".into(), name: None }],
        },
        KubeService {
            name: "np".into(), namespace: "default".into(),
            service_type: "NodePort".into(), cluster_ip: "10.96.0.2".into(),
            ports: vec![KubeServicePort { port: 30080, target_port: "80".into(), protocol: "TCP".into(), name: None }],
        },
        KubeService {
            name: "headless".into(), namespace: "default".into(),
            service_type: "ClusterIP".into(), cluster_ip: "None".into(),
            ports: vec![],
        },
    ];
    show(&mut terminal, &app);
}

// ── What is on the screen ───────────────────────────────

fn screen() -> Area {
    Area { x: 0, y: 0, width: 120, height: 40 }
}

fn gauge() -> Gauge {
    Gauge { filled: 25, percent: 25 }
}

fn text_of(line: &Line) -> String {
    line.spans.iter().map(|s| s.text.as_str()).collect()
}

fn paragraph_of(draw: &Draw) -> &Paragraph {
    match &draw.widget {
        Widget::Text { paragraph } => paragraph,
        other => panic!("{:?}", other),
    }
}

fn table_of(draw: &Draw) -> &Table {
    match &draw.widget {
        Widget::List { table } => table,
        other => panic!("{:?}", other),
    }
}

fn inside(outer: Area, inner: Area) -> bool {
    outer.x <= inner.x
        && outer.y <= inner.y
        && inner.x + inner.width <= outer.x + outer.width
        && inner.y + inner.height <= outer.y + outer.height
}

#[test]
fn splash_shows_logo_bar_and_status() {
    let mut app = app_splash();
    app.splash.spinner_frame = 13;
    let draws = render(screen(), &app, gauge());
    assert_eq!(draws.len(), 3);
    let logo = paragraph_of(&draws[0]);
    assert_eq!(logo.lines.len(), 9);
    assert_eq!(text_of(&logo.lines[0]), LOGO_BIG[0]);
    assert_eq!(text_of(&logo.lines[7]), "Kubernetes Local Development");
    assert_eq!(text_of(&logo.lines[8]), "v0.1.0");
    assert_eq!(logo.alignment, Alignment::Center);
    let bar = &paragraph_of(&draws[1]).lines[0];
    assert_eq!(
        text_of(bar),
        format!("  [{}{}] 25%", "█".repeat(25), "░".repeat(75))
    );
    assert_eq!(bar.spans[1].style, Style::fg(Color::Cyan));
    let status = &paragraph_of(&draws[2]).lines[0];
    assert_eq!(text_of(status), "⠸ Initializing...");
    for draw in &draws {
        assert!(inside(screen(), draw.area));
        assert_eq!(draw.area.width, 120);
    }
}

#[test]
fn bar_shows_the_gauge_as_it_is() {
    let draws = draw_splash(
        Area { x: 0, y: 0, width: 30, height: 20 },
        &app_splash(),
        Gauge { filled: 12, percent: 120 },
    );
    assert_eq!(text_of(&paragraph_of(&draws[1]).lines[0]), "  [████████████] 120%");
    assert_eq!(bar_width(30), 10);
    assert_eq!(bar_width(20), 0);
    assert_eq!(bar_width(0), 0);
}

#[test]
fn main_layout_fills_the_screen() {
    let draws = draw_main_layout(screen(), &app_contexts(3));
    let areas: Vec<Area> = draws.iter().map(|d| d.area).collect();
    assert_eq!(
        areas,
        vec![
            Area { x: 0, y: 0, width: 84, height: 5 },
            Area { x: 84, y: 0, width: 36, height: 5 },
            Area { x: 0, y: 5, width: 120, height: 32 },
            Area { x: 0, y: 37, width: 120, height: 3 },
        ]
    );
}

#[test]
fn main_layout_fits_every_larger_screen() {
    for (x, y, width, height) in [(0, 0, 36, 8), (3, 4, 37, 9), (1, 2, 200, 60), (0, 0, 500, 300)] {
        let area = Area { x, y, width, height };
        let draws = draw_main_layout(area, &app_services());
        assert_eq!(draws[0].area, Area { x, y, width: width - 36, height: 5 });
        assert_eq!(draws[1].area, Area { x: x + width - 36, y, width: 36, height: 5 });
        assert_eq!(draws[2].area, Area { x, y: y + 5, width, height: height - 8 });
        assert_eq!(draws[3].area, Area { x, y: y + height - 3, width, height: 3 });
    }
}

#[test]
fn nothing_is_drawn_outside_of_a_small_screen() {
    for width in 0..45 {
        for height in 0..20 {
            let area = Area { x: 2, y: 3, width, height };
            for app in [app_splash(), app_contexts(2), app_services()] {
                for draw in render(area, &app, gauge()) {
                    assert!(inside(area, draw.area), "{:?} {:?}", area, draw.area);
                }
            }
        }
    }
}

#[test]
fn header_tells_about_the_screen() {
    let info = |app: &App| -> Vec<String> {
        paragraph_of(&draw_header(screen(), app)[0]).lines.iter().map(text_of).collect()
    };
    assert_eq!(info(&app_contexts(3)), vec![" ⎈ Cluster Contexts", "   3 contexts found"]);
    assert_eq!(
        info(&app_services()),
        vec![" ⎈ dev  1 services", "   1 proxied  ·  use <svc>.<ns> in browser"]
    );
    let mut app = app_services();
    app.connected_context = None;
    assert_eq!(info(&app)[0], " ⎈ ?  1 services");
    assert!(info(&app_splash()).is_empty());
    let draws = draw_header(screen(), &app);
    let logo = paragraph_of(&draws[1]);
    assert_eq!(logo.lines.len(), 4);
    assert_eq!(text_of(&logo.lines[3]), "v0.1.0");
    assert_eq!(logo.alignment, Alignment::Right);
    assert_eq!(logo.border, Border::Bottom);
}

#[test]
fn context_rows_mark_the_active_and_the_selected() {
    let mut app = app_contexts(2);
    app.ctx_selected = 1;
    let draw = draw_contexts(screen(), &app);
    let table = table_of(&draw);
    let titles: Vec<String> = table.header.cells.iter().map(text_of).collect();
    assert_eq!(titles, vec!["  Context", "Cluster", "Namespace", "User"]);
    assert_eq!(table.header.style, Style::bold(header_fg()));
    assert_eq!(table.widths, vec![28, 24, 14, 14]);
    assert_eq!(table.title.text, " Contexts ");
    assert_eq!(table.selected, 1);
    let first: Vec<String> = table.rows[0].cells.iter().map(text_of).collect();
    assert_eq!(first, vec!["● ctx-0", "cluster-0", "default", "user-0"]);
    assert_eq!(table.rows[0].cells[0].spans[0].style, Style::fg(Color::Green));
    assert_eq!(table.rows[0].style, Style::fg(Color::White));
    assert_eq!(text_of(&table.rows[1].cells[0]), "  ctx-1");
    assert_eq!(
        table.rows[1].style,
        Style { fg: Some(Color::White), bg: Some(Color::Rgb(30, 30, 46)), bold: false }
    );
}

#[test]
fn service_rows_show_where_they_stand() {
    let mut app = app_services();
    app.services.push(KubeService {
        name: "db".into(),
        namespace: "prod".into(),
        service_type: "NodePort".into(),
        cluster_ip: "-".into(),
        ports: vec![],
    });
    app.services.push(KubeService {
        name: "web".into(),
        namespace: "prod".into(),
        service_type: "LoadBalancer".into(),
        cluster_ip: "10.96.0.99".into(),
        ports: vec![],
    });
    let draw = draw_services(screen(), &app);
    let table = table_of(&draw);
    let cells = |i: usize| -> Vec<String> { table.rows[i].cells.iter().map(text_of).collect() };
    assert_eq!(
        cells(0),
        vec!["  nginx", "default", "ClusterIP", "80/TCP", "nginx.default", "● routed"]
    );
    assert_eq!(cells(1), vec!["  db", "prod", "NodePort", "", "db.prod", "○ headless"]);
    assert_eq!(cells(2), vec!["  web", "prod", "LoadBalancer", "", "web.prod", "○ pending"]);
    assert_eq!(table.rows[0].cells[2].spans[0].style, Style::fg(Color::DarkGray));
    assert_eq!(table.rows[1].cells[2].spans[0].style, Style::fg(Color::Yellow));
    assert_eq!(table.rows[2].cells[2].spans[0].style, Style::fg(Color::Green));
    assert_eq!(table.rows[0].cells[4].spans[0].style, Style::fg(Color::Cyan));
    assert_eq!(table.rows[1].cells[4].spans[0].style, Style::fg(Color::DarkGray));
    assert_eq!(table.widths, vec![20, 14, 14, 14, 22, 12]);
    assert_eq!(table.title.text, " Services ");
}

#[test]
fn empty_lists_show_a_hint() {
    let lines = |draw: Draw| -> Vec<String> {
        paragraph_of(&draw).lines.iter().map(text_of).collect()
    };
    assert_eq!(
        lines(draw_contexts(screen(), &app_contexts(0))),
        vec!["", "  No Kubernetes contexts found.", "  Check ~/.kube/config"]
    );
    let mut app = app_services();
    app.services.clear();
    let draw = draw_services(screen(), &app);
    assert_eq!(paragraph_of(&draw).lines[1].style, Style::fg(Color::DarkGray));
    assert_eq!(lines(draw), vec!["", "  No services found in this cluster."]);
}

#[test]
fn status_bar_shows_toast_or_keys() {
    let bar = |app: &App| -> String {
        text_of(&paragraph_of(&draw_status_bar(screen(), app)).lines[0])
    };
    let mut app = app_contexts(1);
    assert_eq!(bar(&app), "   ↑↓ navigate   Enter connect   r refresh   q quit");
    assert_eq!(
        bar(&app_services()),
        "   ↑↓ navigate   Enter/o open browser   y copy url   r refresh   Esc disconnect   q quit"
    );
    assert_eq!(bar(&app_splash()), "  ");
    app.show_toast("done", false);
    assert_eq!(bar(&app), "  done");
    let draw = draw_status_bar(screen(), &app);
    assert_eq!(paragraph_of(&draw).lines[0].spans[0].style, Style::fg(Color::Green));
    assert_eq!(paragraph_of(&draw).border, Border::Top);
    app.show_toast("failed", true);
    let draw = draw_status_bar(screen(), &app);
    assert_eq!(paragraph_of(&draw).lines[0].spans[0].style, Style::fg(Color::Red));
}

#[test]
fn keys_and_gaps() {
    assert_eq!(key_span("q", "quit").text, " q quit");
    assert_eq!(sep().text, "  ");
}

#[test]
fn terminal_shows_the_services() {
    let mut terminal = test_terminal();
    show(&mut terminal, &app_services());
    let text = shown(&terminal);
    assert!(text.contains("nginx.default"));
    assert!(text.contains("● routed"));
    assert!(text.contains("Esc disconnect"));
    assert!(text.contains("▸ "));
}

#[test]
fn connecting_covers_the_contexts() {
    let mut app = app_contexts(1);
    app.mode = Mode::Connecting;
    app.splash.message = "Connecting...".into();
    let draws = render(screen(), &app, gauge());
    assert_eq!(text_of(&paragraph_of(&draws[2]).lines[0]), "⠋ Connecting...");
    app.screen = Screen::Services;
    assert_eq!(render(screen(), &app, gauge()).len(), 4);
}

#[test]
fn splash_begins_a_quarter_of_the_way_down() {
    for height in 20..150 {
        for y in 0..12 {
            let area = Area { x: 3, y, width: 100, height };
            let draws = draw_splash(area, &app_splash(), gauge());
            let top = y + (25 * height + 50) / 100;
            assert_eq!(draws[0].area, Area { x: 3, y: top, width: 100, height: 9 });
            assert_eq!(draws[1].area, Area { x: 3, y: top + 11, width: 100, height: 1 });
            assert_eq!(draws[2].area, Area { x: 3, y: top + 13, width: 100, height: 1 });
        }
    }
}

#[test]
fn splash_is_shown_whole_from_fourteen_rows_on() {
    for height in 14..20 {
        for y in 0..100 {
            let area = Area { x: 0, y, width: 80, height };
            let draws = draw_splash(area, &app_splash(), gauge());
            let top = draws[0].area.y;
            assert_eq!(draws[0].area, Area { x: 0, y: top, width: 80, height: 9 });
            assert_eq!(draws[1].area, Area { x: 0, y: top + 11, width: 80, height: 1 });
            assert_eq!(draws[2].area, Area { x: 0, y: top + 13, width: 80, height: 1 });
            assert!(y + height <= top + 15 && top + 14 <= y + height);
        }
    }
}

#[test]
fn splash_stays_a_quarter_down_on_a_usual_terminal() {
    for y in 0..200 {
        let draws = draw_splash(Area { x: 0, y, width: 80, height: 24 }, &app_splash(), gauge());
        assert_eq!(draws[0].area.y, y + 6);
    }
}

#[test]
fn small_splash_uses_every_row() {
    for height in 0..14 {
        let draws = draw_splash(Area { x: 0, y: 2, width: 80, height }, &app_splash(), gauge());
        let shown: u16 = draws.iter().map(|d| d.area.height).sum();
        assert_eq!(draws[0].area.y, 2);
        assert!(draws[0].area.height <= 9);
        assert!(draws[1].area.height <= 1);
        assert!(draws[2].area.height <= 1);
        assert!(shown <= height && height <= shown + 3);
    }
}

#[test]
fn both_splashes_draw_the_same() {
    for height in [0, 5, 14, 24, 32, 60] {
        let area = Area { x: 1, y: 2, width: 90, height };
        let startup = draw_splash(area, &app_splash(), gauge());
        let connecting = draw_connecting_splash(area, &app_splash(), gauge());
        assert_eq!(format!("{:?}", startup), format!("{:?}", connecting));
    }
}

#[test]
fn splash_is_placed_in_the_pieces_given() {
    let pieces: Vec<Area> = (0..7).map(|y| Area { x: 0, y, width: 30, height: 1 }).collect();
    let draws = place_splash(&pieces, &app_splash(), gauge());
    let rows: Vec<u16> = draws.iter().map(|d| d.area.y).collect();
    assert_eq!(rows, vec![1, 3, 5]);
}

#[test]
fn low_screen_is_shared_by_header_and_status_bar() {
    for height in 0..8 {
        let draws = draw_main_layout(Area { x: 0, y: 3, width: 80, height }, &app_services());
        assert_eq!(draws[0].area.y, 3);
        assert!(draws[0].area.height <= 5);
        assert_eq!(draws[2].area.height, 0);
        assert!(draws[3].area.height <= 3);
        assert_eq!(draws[3].area.y, 3 + draws[0].area.height);
        assert_eq!(draws[0].area.height + draws[3].area.height, height);
    }
}

#[test]
fn narrow_header_is_all_logo() {
    for width in 0..37 {
        let area = Area { x: 4, y: 0, width, height: 5 };
        let draws = draw_header(area, &app_services());
        assert_eq!(draws[0].area.width, 0);
        assert_eq!(draws[1].area, area);
    }
}
