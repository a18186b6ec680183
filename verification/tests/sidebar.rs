//! The side panels: areas, agents, services and todos.

use ilar_tui::buffer::Rect;
use ilar_tui::sidebar::{
    agent_panel_lines, carve_panel, content_areas, exited_disclosure_hit, service_panel,
    underline_row, AgentRow,
};
use ilar_tui::style::Line;
use ilar_tui::theme;
use ilar_tui::todos::{
    anchor_index, fitting_run, render_todo_sidebar_snapshot, todo_item_lines, todo_render_snapshot,
    todo_summary, visible_todo_window, Status, TodoItem, TodoList,
};

fn rendered_text(line: &Line) -> String {
    line.spans.iter().map(|span| span.content.as_str()).collect()
}

fn render_todo_sidebar_lines(list: &TodoList, width: u16, height: u16) -> Vec<Line> {
    let snapshot = todo_render_snapshot(list, height as usize);
    render_todo_sidebar_snapshot(&snapshot, width, height)
}

#[test]
fn carve_panel_takes_the_top_and_respects_the_half_height_cap() {
    let mut area = Rect::new(0, 10, 42, 20);
    let panel = carve_panel(&mut area, 3).expect("fits");
    assert_eq!(panel, Rect::new(0, 10, 42, 5));
    assert_eq!(area, Rect::new(0, 15, 42, 15));

    // Tall content is capped at half the remaining area.
    let panel = carve_panel(&mut area, 40).expect("capped");
    assert_eq!(panel.height, 7);
    assert_eq!(area, Rect::new(0, 22, 42, 8));

    // Too small to show any content: nothing carved, area untouched.
    let mut tiny = Rect::new(0, 0, 42, 4);
    assert_eq!(carve_panel(&mut tiny, 3), None);
    assert_eq!(tiny, Rect::new(0, 0, 42, 4));
}

#[test]
fn current_todos_render_all_statuses_and_live_replacements() {
    let mut todos = TodoList {
        items: vec![
            TodoItem {
                content: "done thing".into(),
                status: Status::Completed,
            },
            TodoItem {
                content: "active thing".into(),
                status: Status::InProgress,
            },
            TodoItem {
                content: "later thing".into(),
                status: Status::Pending,
            },
        ],
    };
    let rendered = render_todo_sidebar_lines(&todos, 26, 5)
        .iter()
        .map(rendered_text)
        .collect::<Vec<_>>()
        .join("\n");
    assert!(rendered.contains("✓ done thing"), "{rendered}");
    assert!(rendered.contains("▸ active thing"), "{rendered}");
    assert!(rendered.contains("○ later thing"), "{rendered}");
    assert!(
        render_todo_sidebar_lines(&todos, 26, 5)[0]
            .spans
            .iter()
            .any(|span| span.content.contains("done thing")
                && span.style.fg == Some(theme::SECONDARY))
    );

    todos.items = vec![TodoItem {
        content: "replacement".into(),
        status: Status::Pending,
    }];
    let replaced = render_todo_sidebar_lines(&todos, 26, 5)
        .iter()
        .map(rendered_text)
        .collect::<Vec<_>>()
        .join("\n");
    assert!(replaced.contains("○ replacement"), "{replaced}");
    assert!(!replaced.contains("done thing"), "{replaced}");
}

#[test]
fn todo_rendering_is_bounded_and_starts_at_the_active_item() {
    let list = TodoList {
        items: vec![
            TodoItem {
                content: "old completed item".into(),
                status: Status::Completed,
            },
            TodoItem {
                content: "another completed item".into(),
                status: Status::Completed,
            },
            TodoItem {
                content: "current \u{1b} active\nitem".into(),
                status: Status::InProgress,
            },
            TodoItem {
                content: "next pending item".into(),
                status: Status::Pending,
            },
            TodoItem {
                content: "extra \u{1b} pending\nitem".into(),
                status: Status::Pending,
            },
        ],
    };
    let lines = render_todo_sidebar_lines(&list, 26, 3);
    let text = lines
        .iter()
        .map(rendered_text)
        .collect::<Vec<_>>()
        .join("\n");
    assert_eq!(lines.len(), 3);
    // Three rows for five items: the completed pair above the
    // active one is what goes, not the pending work below it.
    assert!(!text.contains('✓'), "{text}");
    assert!(text.starts_with('▸'), "{text}");
    assert!(text.contains('○'), "{text}");
    assert!(text.contains("+2 hidden"), "{text}");
    assert!(!text.contains('\u{1b}'), "{text:?}");
    assert!(lines.iter().all(|line| !rendered_text(line).contains('\n')));
    assert!(lines.iter().all(|line| line.width() <= 26));
}

#[test]
fn todo_sidebar_wraps_with_a_hanging_status_indent() {
    let list = TodoList {
        items: vec![TodoItem {
            content: "active task with readable wrapping".into(),
            status: Status::InProgress,
        }],
    };

    let lines = render_todo_sidebar_lines(&list, 20, 4);
    let text = lines.iter().map(rendered_text).collect::<Vec<_>>();

    assert_eq!(text, ["▸ active task with", "  readable wrapping"]);
    assert!(lines.iter().all(|line| line.width() <= 20));
}

#[test]
fn todo_sidebar_reports_items_displaced_by_wrapping() {
    let list = TodoList {
        items: vec![
            TodoItem {
                content: "first todo needs multiple rows to render".into(),
                status: Status::InProgress,
            },
            TodoItem {
                content: "later todo".into(),
                status: Status::Pending,
            },
        ],
    };

    let lines = render_todo_sidebar_lines(&list, 20, 2);
    let text = lines.iter().map(rendered_text).collect::<Vec<_>>();

    assert_eq!(lines.len(), 2);
    assert!(text[0].starts_with("▸ first todo"), "{text:?}");
    assert!(text[1].contains("+1 hidden"), "{text:?}");
}

#[test]
fn todo_sidebar_wraps_the_last_visible_item_before_hidden_count() {
    let mut items = (0..4)
        .map(|index| TodoItem {
            content: format!("short todo {index}"),
            status: Status::Pending,
        })
        .collect::<Vec<_>>();
    items.push(TodoItem {
        content: "final selected todo wraps with visible ending".into(),
        status: Status::Pending,
    });
    items.push(TodoItem {
        content: "hidden todo that would need rows of its own".into(),
        status: Status::Pending,
    });

    // Eight rows hold the four short items and the wrapping one;
    // the last item needs more than the row left over.
    let lines = render_todo_sidebar_lines(&TodoList { items }, 20, 8);
    let text = lines.iter().map(rendered_text).collect::<Vec<_>>();

    assert!(
        text.iter().any(|line| line.contains("visible ending")),
        "{text:?}"
    );
    assert!(
        text.iter().any(|line| line.contains("+1 hidden")),
        "{text:?}"
    );
}

#[test]
fn inline_hidden_count_marks_shortened_todo_content() {
    let list = TodoList {
        items: vec![
            TodoItem {
                content: "first".into(),
                status: Status::Pending,
            },
            TodoItem {
                content: "second".into(),
                status: Status::Pending,
            },
            TodoItem {
                content: "third item nearly".into(),
                status: Status::Pending,
            },
            TodoItem {
                content: "hidden".into(),
                status: Status::Pending,
            },
        ],
    };

    let lines = render_todo_sidebar_lines(&list, 20, 3);
    let last = rendered_text(lines.last().unwrap());

    assert!(last.contains("… · +1 hidden"), "{last}");
    assert!(lines.iter().all(|line| line.width() <= 20));
}

fn list_of(statuses: &[Status]) -> TodoList {
    TodoList {
        items: statuses
            .iter()
            .enumerate()
            .map(|(index, status)| TodoItem {
                content: format!("item {index}"),
                status: *status,
            })
            .collect(),
    }
}

#[test]
fn the_agent_panel_caps_its_rows_and_counts_the_rest() {
    let agents = (0..5)
        .map(|index| AgentRow {
            description: format!("task number {index} with a long description"),
            agent: "explore".into(),
            background: index % 2 == 1,
            elapsed: 30,
        })
        .collect::<Vec<_>>();

    let lines = agent_panel_lines(&agents, 24);
    let text = lines.iter().map(rendered_text).collect::<Vec<_>>();

    // Three agents, two lines each, then the tally.
    assert_eq!(text.len(), 7, "{text:?}");
    assert!(text[0].starts_with("▸ task number 0"), "{text:?}");
    assert_eq!(text[1], "  explore · 30s");
    assert_eq!(text[3], "  explore · bg · 30s");
    assert_eq!(text[6], "  +2 more");
    assert!(lines.iter().all(|line| line.width() <= 24), "{text:?}");

    // A single agent needs no tally, and zero width does not panic.
    assert_eq!(agent_panel_lines(&agents[..1], 24).len(), 2);
    assert!(
        agent_panel_lines(&agents, 0)
            .iter()
            .all(|line| line.width() <= 1)
    );
}

#[test]
fn the_window_holds_the_anchor_and_stays_contiguous() {
    let (completed, in_progress, pending) =
        (Status::Completed, Status::InProgress, Status::Pending);
    let list = list_of(&[completed, completed, in_progress, pending, pending]);
    assert_eq!(visible_todo_window(&list, 0), 0..0);
    assert_eq!(anchor_index(&list), 2);
    // Room for everything: the whole list, from the top.
    assert_eq!(visible_todo_window(&list, 9), 0..5);
    // Tight: the active item leads, upcoming work follows.
    assert_eq!(visible_todo_window(&list, 2), 2..4);

    // Nothing in progress: the next pending item anchors.
    let list = list_of(&[completed, completed, completed, pending, pending]);
    assert_eq!(visible_todo_window(&list, 2), 3..5);
    // All done: the tail, back-filled because the anchor is last.
    let list = list_of(&[completed, completed, completed]);
    assert_eq!(visible_todo_window(&list, 2), 1..3);
}

#[test]
fn the_fitting_run_grows_forward_then_backward() {
    // Anchor at 2, four rows: forward first, then back-fill.
    assert_eq!(fitting_run(&[1, 1, 1, 1, 1], 2, 4), 1..5);
    // Wrapping ahead eats the budget; nothing back-fills.
    assert_eq!(fitting_run(&[1, 1, 3, 1], 2, 4), 2..4);
    // Not even the anchor fits: the caller clips it.
    assert_eq!(fitting_run(&[1, 5, 1], 1, 3), 1..1);
}

#[test]
fn a_tall_sidebar_shows_every_todo_it_has_room_for() {
    let list = TodoList {
        items: (0..12)
            .map(|index| TodoItem {
                content: format!("todo {index}"),
                status: Status::Pending,
            })
            .collect(),
    };

    let lines = render_todo_sidebar_lines(&list, 26, 30);
    let text = lines.iter().map(rendered_text).collect::<Vec<_>>();

    assert_eq!(text.len(), 12, "{text:?}");
    for index in 0..12 {
        assert!(
            text.iter()
                .any(|line| line.contains(&format!("todo {index}"))),
            "todo {index} missing: {text:?}"
        );
    }
    assert!(!text.join("\n").contains("hidden"), "{text:?}");
}

#[test]
fn a_short_sidebar_keeps_the_active_item_and_what_follows() {
    let mut items = (0..15)
        .map(|index| TodoItem {
            content: format!("done {index}"),
            status: Status::Completed,
        })
        .collect::<Vec<_>>();
    items.push(TodoItem {
        content: "active one".into(),
        status: Status::InProgress,
    });
    items.extend((0..4).map(|index| TodoItem {
        content: format!("next {index}"),
        status: Status::Pending,
    }));

    let list = TodoList { items };
    let lines = render_todo_sidebar_lines(&list, 38, 4);
    let text = lines.iter().map(rendered_text).collect::<Vec<_>>();

    assert_eq!(text.len(), 4, "{text:?}");
    assert!(text[0].contains("▸ active one"), "{text:?}");
    assert!(text[1].contains("next 0"), "{text:?}");
    assert!(text[2].contains("next 1"), "{text:?}");
    // 15 completed above and one pending below the window, named
    // alongside the key that shows them.
    assert!(text[3].contains("+16 hidden · ^T"), "{text:?}");

    // Too narrow for the hint: the count still has to fit.
    let cramped = render_todo_sidebar_lines(&list, 20, 4)
        .iter()
        .map(rendered_text)
        .collect::<Vec<_>>();
    assert!(cramped[3].contains("+16 hidden"), "{cramped:?}");
    assert!(!cramped[3].contains("^T"), "{cramped:?}");
}

#[test]
fn wide_content_reserves_a_fixed_right_sidebar() {
    let wide = content_areas(Rect::new(0, 0, 121, 8));
    assert_eq!(wide.transcript, Rect::new(0, 0, 79, 8));
    assert_eq!(wide.todos, Some(Rect::new(79, 0, 42, 8)));

    let narrow = content_areas(Rect::new(0, 0, 120, 8));
    assert_eq!(narrow.transcript, Rect::new(0, 0, 120, 8));
    assert_eq!(narrow.todos, None);
}

#[test]
fn the_panel_of_services_folds_the_exited_ones() {
    let services = vec![
        ("web".to_string(), true, "port 80\u{1b}".to_string()),
        ("db".to_string(), false, "exit 1".to_string()),
        ("cache".to_string(), true, "ready".to_string()),
    ];
    let folded = service_panel(&services, false, 30);
    let text = folded.lines.iter().map(rendered_text).collect::<Vec<_>>();
    assert_eq!(text, ["● web · port 80", "● cache · ready", "▸ 1 exited"]);
    assert_eq!(folded.exited_toggle, Some(2));

    let open = service_panel(&services, true, 30);
    let text = open.lines.iter().map(rendered_text).collect::<Vec<_>>();
    assert_eq!(text[2..], ["▾ 1 exited", "○ db · exit 1"]);

    let none = service_panel(&services[..1], true, 30);
    assert_eq!(none.lines.len(), 1);
    assert_eq!(none.exited_toggle, None);
}

#[test]
fn the_disclosure_takes_clicks_where_it_is_drawn() {
    let panel = Rect::new(4, 10, 20, 5);
    assert_eq!(exited_disclosure_hit(panel, 1), Some(Rect::new(5, 12, 18, 1)));
    assert_eq!(exited_disclosure_hit(panel, 3), None);
}

#[test]
fn content_taller_than_any_screen_is_capped_at_half() {
    for content_rows in [65_534, 65_536, usize::MAX] {
        let mut area = Rect::new(0, 0, 42, 20);
        assert_eq!(carve_panel(&mut area, content_rows), Some(Rect::new(0, 0, 42, 10)));
        assert_eq!(area, Rect::new(0, 10, 42, 10));
    }
}

#[test]
fn a_panel_that_is_not_carved_may_lie_at_the_last_row() {
    let mut area = Rect::new(0, 65_535, 42, 4);
    assert_eq!(carve_panel(&mut area, 3), None);
    assert_eq!(area, Rect::new(0, 65_535, 42, 4));
}

#[test]
fn a_disclosure_below_every_panel_takes_no_click() {
    let panel = Rect::new(0, 0, 42, 10);
    assert_eq!(exited_disclosure_hit(panel, 7), Some(Rect::new(1, 8, 40, 1)));
    for index in [8, 65_536, usize::MAX] {
        assert_eq!(exited_disclosure_hit(panel, index), None);
    }
}

#[test]
fn an_underlined_row_keeps_its_text() {
    let mut line = Line::one("exited", ilar_tui::style::Style::fg(theme::MUTED));
    underline_row(&mut line);
    assert_eq!(rendered_text(&line), "exited");
    assert!(line.spans[0].style.modifier.underlined);
    assert_eq!(line.spans[0].style.fg, Some(theme::MUTED));
}

#[test]
fn the_summary_is_the_active_todo_in_one_row() {
    let list = list_of(&[Status::Completed, Status::InProgress, Status::Pending]);
    let snapshot = todo_render_snapshot(&list, 1);
    let line = todo_summary(&snapshot, 40).unwrap();
    assert_eq!(rendered_text(&line), "todos ▸ item 1 · +2");
    assert!(todo_summary(&snapshot, 0).is_none());
    let short = todo_summary(&snapshot, 12).unwrap();
    assert!(short.width() <= 12);
    let empty = todo_render_snapshot(&list_of(&[]), 3);
    assert!(todo_summary(&empty, 40).is_none());
}

#[test]
fn a_todo_wraps_below_its_mark() {
    let item = TodoItem { content: "one  two\tthree".to_string(), status: Status::Pending };
    let text = todo_item_lines(&item, 9).iter().map(rendered_text).collect::<Vec<_>>();
    assert_eq!(text, ["○ one two", "  three"]);
}
