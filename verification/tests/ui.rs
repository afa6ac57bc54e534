//! What the screen shows.

use pitwall::model::{
    DeployStatus, Deployment, HostedJob, HostedStatus, JobInfo, Load, MemLevel, RunnerRow,
    SourceKind, Timestamp,
};
use pitwall::stats_math::CpuShare;
use pitwall::theme::{Flavor, Palette};
use pitwall::ui::{
    braille_glyph, column_layout, deploy_repo_col_width, empty_state_area, empty_state_message,
    fmt_elapsed, fmt_mem, fmt_wait, frame_sections, gauge_text, hosted_height, hosted_section,
    load_style, mem_style, repo_col_width, runner_col_width, runner_section, spark_cells, table_row,
    truncate_ellipsis, truncate_ellipsis_front, vercel_height, vercel_section, Area, ListTable,
    RunnerTable, TextStyle, View, BRANCH_IDX, HOSTED_CAP, JOB_IDX, RUNNER_IDX, VERCEL_CAP,
};
use unicode_width::{UnicodeWidthChar, UnicodeWidthStr};

const CAP: u64 = 8 * 1024 * 1024 * 1024;
const SLICE_CAP: u64 = 24 * 1024 * 1024 * 1024;
const NOW: i64 = 1_800_000_000;

fn at(secs: i64) -> Timestamp {
    Timestamp { secs, nanos: 0 }
}

fn pct(n: u64) -> CpuShare {
    CpuShare {
        busy: n,
        span: 100,
        cores: 1,
    }
}

fn row(mem_bytes: u64, load: Load, mem_level: MemLevel) -> RunnerRow {
    RunnerRow {
        name: "ci-runner-1".into(),
        cpu_pct: pct(1),
        mem_bytes,
        mem_limit: CAP,
        job: None,
        load,
        mem_level,
        kind: SourceKind::Docker,
        cpu_hist: vec![],
        mem_hist: vec![],
    }
}

fn busy_row(name: &str, workflow: &str, job: &str, branch: &str, elapsed: i64) -> RunnerRow {
    RunnerRow {
        name: name.into(),
        cpu_pct: pct(12),
        mem_bytes: 47 * 1024 * 1024,
        mem_limit: CAP,
        job: Some(JobInfo {
            workflow: workflow.into(),
            job: job.into(),
            branch: branch.into(),
            started_at: at(NOW - elapsed),
        }),
        load: Load::Busy,
        mem_level: MemLevel::Normal,
        kind: SourceKind::Docker,
        cpu_hist: vec![],
        mem_hist: vec![],
    }
}

fn view<'a>(
    rows: &'a [RunnerRow],
    hosted: &'a [HostedJob],
    deployments: &'a [Deployment],
    palette: &'a Palette,
) -> View<'a> {
    View {
        rows,
        slice_cap_bytes: SLICE_CAP,
        now: at(NOW),
        status: None,
        palette,
        prefix: "ci-runner-",
        matched_seen: rows.len(),
        unmatched_seen: 0,
        warn_pct: 85,
        crit_pct: 90,
        hosted,
        multi_repo: false,
        deployments,
    }
}

/// What is inside a section's frame on a terminal of this width.
fn inner(width: u16) -> Area {
    Area {
        x: 2,
        y: 3,
        width: width - 4,
        height: 5,
    }
}

fn table_on(width: u16, rows: &[RunnerRow]) -> RunnerTable {
    let palette = Palette::for_flavor(Flavor::Mocha);
    runner_section(inner(width), &view(rows, &[], &[], &palette))
}

fn list_text(t: &ListTable) -> String {
    let mut s = t.header.join("|");
    for r in &t.rows {
        s.push('\n');
        s.push_str(&r.cells.join("|"));
    }
    s
}

fn table_text(t: &RunnerTable) -> String {
    let mut s = t.header.join("|");
    for r in &t.rows {
        s.push_str(&format!(
            "\n{}|{}|{}|{}|{}",
            r.runner, r.mem, r.job, r.branch, r.elapsed
        ));
    }
    s
}

#[test]
fn idle_dims_on_dark_but_not_on_light() {
    let dark = Palette::for_flavor(Flavor::Mocha);
    let light = Palette::for_flavor(Flavor::Latte);
    assert!(load_style(Load::Idle, &dark).dim);
    assert!(!load_style(Load::Idle, &light).dim);
}

#[test]
fn rows_take_the_colour_of_their_load() {
    let p = Palette::for_flavor(Flavor::Frappe);
    assert_eq!(load_style(Load::Idle, &p).fg, p.idle);
    assert_eq!(load_style(Load::Busy, &p).fg, p.busy);
    assert_eq!(load_style(Load::NearCap, &p).fg, p.near_cap);
    assert!(!load_style(Load::Busy, &p).dim && !load_style(Load::NearCap, &p).dim);
    assert_eq!(load_style(Load::Busy, &p).bg, p.base);
}

#[test]
fn braille_glyph_bottom_up_fills() {
    assert_eq!(braille_glyph(0, 0), '\u{2800}');
    assert_eq!(
        braille_glyph(4, 4),
        char::from_u32(0x2800 + 0x47 + 0xB8).unwrap()
    );
    assert_eq!(braille_glyph(1, 0), char::from_u32(0x2800 + 0x40).unwrap());
    assert_eq!(braille_glyph(0, 1), char::from_u32(0x2800 + 0x80).unwrap());
    assert_eq!(
        braille_glyph(2, 3),
        char::from_u32(0x2800 + 0x44 + 0xB0).unwrap()
    );
    assert_eq!(braille_glyph(9, usize::MAX), braille_glyph(4, 4));
}

/// The heights of samples on a scale to one hundred.
fn heights(values: &[f64]) -> Vec<usize> {
    values
        .iter()
        .map(|v| (((v / 100.0).clamp(0.0, 1.0) * 4.0).round() as usize).max(1))
        .collect()
}

#[test]
fn sub_cell_right_alignment_pins_newest_sample_to_the_right_edge() {
    let one = spark_cells(&heights(&[100.0]), 2);
    assert_eq!(one.len(), 2);
    assert_eq!(one[0].glyph, ' ');
    assert_eq!(one[1].glyph, braille_glyph(0, 4));

    let two = spark_cells(&heights(&[0.0, 100.0]), 2);
    assert_eq!(two[0].glyph, ' ');
    assert_eq!(two[1].glyph, braille_glyph(1, 4));

    let three = spark_cells(&heights(&[50.0, 0.0, 100.0]), 2);
    assert_eq!(three.len(), 2);
    assert_ne!(three[0].glyph, ' ');
    assert_eq!(three[0].glyph, braille_glyph(0, 2));
    assert_eq!(three[1].glyph, braille_glyph(1, 4));
}

#[test]
fn sparklines_show_the_newest_samples() {
    let cells = spark_cells(&[1, 2, 3, 4, 1], 2);
    assert_eq!((cells[0].left, cells[0].right), (Some(1), Some(2)));
    assert_eq!((cells[1].left, cells[1].right), (Some(3), Some(4)));
    assert_eq!(cells[1].glyph, braille_glyph(4, 1));
    assert!(spark_cells(&[1], 0).is_empty());
    assert!(spark_cells(&[], 3).iter().all(|c| c.glyph == ' '));
}

#[test]
fn formats_mem_and_elapsed() {
    assert_eq!(fmt_mem(1024 * 1024 * 1024), "1.0GiB");
    assert_eq!(fmt_mem(1024 * 1024 * 1024 - 1), "1.0GiB");
    assert_eq!(fmt_mem(42 * 1024 * 1024), "42.0MiB");
    assert_eq!(fmt_elapsed(75), "01:15");
    assert_eq!(fmt_elapsed(3661), "1:01:01");
}

/// The formula over double-precision numbers.
fn mem_by_doubles(bytes: u64) -> String {
    let mib_unit = 1024.0 * 1024.0;
    let gib_unit = mib_unit * 1024.0;
    let bytes = bytes as f64;
    let mib = format!("{:.1}", bytes / mib_unit);
    if bytes >= gib_unit || mib == "1024.0" {
        format!("{:.1}GiB", bytes / gib_unit)
    } else {
        format!("{mib}MiB")
    }
}

#[test]
fn memory_is_shown_as_doubles_round_it() {
    let mut samples: Vec<u64> = vec![0, 1, 52428, 52429, u64::MAX, u64::MAX - 1];
    for k in 0..64u32 {
        for d in [0u64, 1, 2, 3, 511, 512, 513, 1023, 1024, 1025] {
            samples.push((1u64 << k).wrapping_add(d));
            samples.push((1u64 << k).wrapping_sub(d));
        }
    }
    // Quarters of a unit lie halfway between tenths.
    for m in 1..200u64 {
        samples.push(m * 262_144);
        samples.push(m * 268_435_456);
        samples.push(m * 268_435_456 + 1);
        samples.push(m * 268_435_456 - 1);
    }
    let mut x: u64 = 0x9e37_79b9_7f4a_7c15;
    for i in 0..4000u32 {
        x ^= x << 13;
        x ^= x >> 7;
        x ^= x << 17;
        samples.push(x >> (i % 64));
    }
    for s in samples {
        assert_eq!(fmt_mem(s), mem_by_doubles(s), "{s}");
    }
}

#[test]
fn durations_have_two_digits_below_the_first_place() {
    assert_eq!(fmt_elapsed(0), "00:00");
    assert_eq!(fmt_elapsed(3599), "59:59");
    assert_eq!(fmt_elapsed(360_009), "100:00:09");
}

#[test]
fn column_layout_matches_ratatui_solver() {
    const RW: u16 = 17;
    let line = |width: u16| Area {
        x: 0,
        y: 0,
        width,
        height: 1,
    };
    let c = column_layout(line(120), RW);
    assert_eq!(c[RUNNER_IDX].width, 17);
    assert_eq!((c[JOB_IDX].x, c[JOB_IDX].width), (84, 12));
    assert_eq!((c[BRANCH_IDX].x, c[BRANCH_IDX].width), (97, 12));

    let c = column_layout(line(200), RW);
    assert_eq!(c[RUNNER_IDX].width, 17);
    assert_eq!(c[JOB_IDX].width, 52);
    assert_eq!(c[BRANCH_IDX].width, 52);

    assert_eq!(column_layout(line(113), RW)[RUNNER_IDX].width, 17);
    assert_eq!(column_layout(line(100), RW)[RUNNER_IDX].width, 9);
    assert_eq!(column_layout(line(80), RW)[RUNNER_IDX].width, 6);

    let c = column_layout(line(64), RW);
    assert_eq!(c[JOB_IDX].width, 12);
    assert_eq!(c[BRANCH_IDX].width, 8);
}

#[test]
fn truncate_ellipsis_fits_untouched() {
    assert_eq!(truncate_ellipsis("abc", 5), "abc");
    assert_eq!(truncate_ellipsis("abcde", 5), "abcde");
    assert_eq!(truncate_ellipsis("abc", 0), "");
}

#[test]
fn truncate_ellipsis_overflow_is_exactly_max_wide() {
    let r = truncate_ellipsis("Security \u{203a} Dependency review", 12);
    assert_eq!(UnicodeWidthStr::width(r.as_str()), 12);
    assert!(r.ends_with('\u{2026}'));
    assert_eq!(r, "Security \u{203a} \u{2026}");
}

#[test]
fn truncate_ellipsis_wide_glyphs_stay_within_max() {
    let r = truncate_ellipsis("\u{65e5}\u{672c}\u{8a9e} test", 6);
    assert!(UnicodeWidthStr::width(r.as_str()) <= 6);
    assert!(r.ends_with('\u{2026}'));
    assert_eq!(r, "\u{65e5}\u{672c}\u{2026}");
}

#[test]
fn truncate_ellipsis_control_char_no_panic() {
    let r = truncate_ellipsis("a\u{7}bcdefghij", 5);
    let width: usize = r
        .chars()
        .map(|c| UnicodeWidthChar::width(c).unwrap_or(0))
        .sum();
    assert!(width <= 5);
    assert!(r.ends_with('\u{2026}'));
}

#[test]
fn truncate_ellipsis_front_fits_untouched() {
    assert_eq!(truncate_ellipsis_front("abc", 5), "abc");
    assert_eq!(truncate_ellipsis_front("abcde", 5), "abcde");
    assert_eq!(truncate_ellipsis_front("abc", 0), "");
}

#[test]
fn truncate_ellipsis_front_keeps_the_tail() {
    assert_eq!(
        truncate_ellipsis_front("pulse-ci-runner-1", 9),
        "\u{2026}runner-1"
    );
    assert_eq!(
        truncate_ellipsis_front("pulse-ci-runner-1", 6),
        "\u{2026}ner-1"
    );
    let r = truncate_ellipsis_front("pulse-ci-runner-1", 9);
    assert_eq!(UnicodeWidthStr::width(r.as_str()), 9);
    assert!(r.starts_with('\u{2026}'));
    assert!(r.ends_with("-1"));
}

#[test]
fn truncate_ellipsis_front_wide_glyphs_stay_within_max() {
    let r = truncate_ellipsis_front("test \u{65e5}\u{672c}\u{8a9e}", 6);
    assert!(UnicodeWidthStr::width(r.as_str()) <= 6);
    assert!(r.starts_with('\u{2026}'));
}

#[test]
fn one_column_holds_the_ellipsis_alone() {
    assert_eq!(truncate_ellipsis("abc", 1), "\u{2026}");
    assert_eq!(truncate_ellipsis_front("abc", 1), "\u{2026}");
}

#[test]
fn runner_col_width_derives_from_names() {
    let rows = vec![
        busy_row("pulse-ci-runner-1", "CI", "t", "main", 1),
        busy_row("pulse-ci-runner-10", "CI", "t", "main", 1),
    ];
    assert_eq!(runner_col_width(&rows), 18);
    assert_eq!(runner_col_width(&[busy_row("r1", "CI", "t", "main", 1)]), 6);
    assert_eq!(runner_col_width(&[]), 6);
}

#[test]
fn squeezed_runner_column_keeps_the_number() {
    let rows = vec![busy_row("pulse-ci-runner-1", "CI", "test", "main", 30)];
    for width in [100u16, 80] {
        let cell = &table_on(width, &rows).rows[0].runner;
        assert!(
            cell.starts_with('\u{2026}'),
            "width {width}: runner cell should be front-truncated, got {cell:?}"
        );
        assert!(
            cell.ends_with("-1"),
            "width {width}: runner number must survive, got {cell:?}"
        );
    }
}

#[test]
fn wide_runner_column_shows_full_name_with_number() {
    let rows = vec![busy_row("pulse-ci-runner-1", "CI", "test", "main", 30)];
    for width in [160u16, 200] {
        assert_eq!(table_on(width, &rows).rows[0].runner, "pulse-ci-runner-1");
    }
}

#[test]
fn renders_without_panic_and_shows_runner() {
    let mut idle = row(47 * 1024 * 1024, Load::Idle, MemLevel::Normal);
    idle.name = "ci-runner-1".into();
    let rows = vec![idle, busy_row("ci-runner-2", "CI", "test", "main", 0)];
    let content = table_text(&table_on(140, &rows));
    assert!(content.contains("ci-runner-1"));
    assert!(content.contains("idle"));
    assert!(content.contains("branch"));
    assert!(content.contains("main"));
    assert!(content.contains("elapsed"));
}

#[test]
fn native_row_hides_zero_limit_and_shows_busy_without_detail() {
    let mut r = row(100 * 1024 * 1024, Load::Busy, MemLevel::Normal);
    r.name = "ltdovr".into();
    r.mem_limit = 0;
    let content = table_text(&table_on(140, &[r]));
    assert!(content.contains("ltdovr"));
    assert!(content.contains("busy"));
    assert!(content.contains("100.0MiB"));
    assert!(!content.contains("/0.0MiB"));
}

#[test]
fn wide_terminal_shows_full_job_branch_and_fixed_columns() {
    let rows = vec![busy_row(
        "ci-runner-1",
        "Security",
        "Dependency review",
        "feature/long-branch-name",
        5025,
    )];
    let content = table_text(&table_on(160, &rows));
    assert!(content.contains("Security \u{203a} Dependency review"));
    assert!(content.contains("feature/long-branch-name"));
    assert!(!content.contains('\u{2026}'));
    assert!(content.contains("ci-runner-1"));
    assert!(content.contains("47.0MiB/8.0GiB"));
    assert!(content.contains("1:23:45"));
}

#[test]
fn narrow_terminal_truncates_job_and_branch_with_trailing_ellipsis() {
    let rows = vec![busy_row(
        "ci-runner-1",
        "Security",
        "Dependency review",
        "feature/long-branch-name",
        30,
    )];
    let width = 64;
    let cols = column_layout(inner(width), runner_col_width(&rows));
    let t = table_on(width, &rows);
    let cells = &t.rows[0];
    assert!(cells.job.ends_with('\u{2026}'));
    assert!(cells.branch.ends_with('\u{2026}'));
    assert_eq!(
        UnicodeWidthStr::width(cells.job.as_str()),
        cols[JOB_IDX].width as usize
    );
    assert_eq!(
        UnicodeWidthStr::width(cells.branch.as_str()),
        cols[BRANCH_IDX].width as usize
    );
}

#[test]
fn a_job_without_a_branch_shows_a_dash() {
    let p = Palette::for_flavor(Flavor::Mocha);
    let cells = table_row(
        &busy_row("r-1", "CI", "t", "", 75),
        at(NOW),
        &p,
        20,
        20,
        20,
    );
    assert_eq!(cells.branch, "-");
    assert_eq!(cells.job, "CI \u{203a} t");
    assert_eq!(cells.elapsed, "01:15");
    let idle = table_row(
        &row(0, Load::Idle, MemLevel::Normal),
        at(NOW),
        &p,
        20,
        20,
        20,
    );
    assert_eq!(
        (
            idle.job.as_str(),
            idle.branch.as_str(),
            idle.elapsed.as_str()
        ),
        ("\u{2014} idle", "-", "-")
    );
    assert!(idle.idle);
}

#[test]
fn empty_rows_with_status_shows_banner_not_blank() {
    let palette = Palette::for_flavor(Flavor::Mocha);
    let mut v = view(&[], &[], &[], &palette);
    let screen = Area {
        x: 0,
        y: 0,
        width: 80,
        height: 12,
    };
    assert!(frame_sections(screen, &v).banner.is_none());
    v.status = Some("docker: unreachable".into());
    let s = frame_sections(screen, &v);
    let banner = s.banner.unwrap();
    assert_eq!((banner.y, banner.height, banner.width), (1, 1, 80));
    assert_eq!((s.title.y, s.title.height), (0, 1));
    assert_eq!((s.runners.y, s.runners.height), (2, 7));
    assert_eq!((s.memory.y, s.memory.height), (9, 3));
}

#[test]
fn warn_band_busy_row_stays_green_but_mem_cell_is_warn_color() {
    let m = Palette::for_flavor(Flavor::Mocha);
    let rows = vec![row((CAP as f64 * 0.87) as u64, Load::Busy, MemLevel::Warn)];
    let t = table_on(140, &rows);
    assert_eq!(t.rows[0].style.fg, m.busy);
    assert_eq!(t.rows[0].mem_style.unwrap().fg, m.warn);
}

#[test]
fn warn_mem_cell_is_not_dimmed_on_an_idle_row() {
    let m = Palette::for_flavor(Flavor::Mocha);
    let rows = vec![row((CAP as f64 * 0.87) as u64, Load::Idle, MemLevel::Warn)];
    let t = table_on(140, &rows);
    assert!(t.rows[0].style.dim);
    let cell = t.rows[0].mem_style.unwrap();
    assert_eq!((cell.fg, cell.bg), (m.warn, m.base));
    assert!(!cell.dim);
}

#[test]
fn only_a_warning_gives_the_memory_cell_its_own_style() {
    for flavor in [
        Flavor::Mocha,
        Flavor::Macchiato,
        Flavor::Frappe,
        Flavor::Latte,
    ] {
        let p = Palette::for_flavor(flavor);
        let warn = TextStyle {
            fg: p.warn,
            bg: p.base,
            dim: false,
        };
        assert_eq!(mem_style(MemLevel::Warn, &p), Some(warn));
        assert_eq!(mem_style(MemLevel::Normal, &p), None);
        assert_eq!(mem_style(MemLevel::Critical, &p), None);
    }
}

#[test]
fn critical_row_is_near_cap_color() {
    let m = Palette::for_flavor(Flavor::Mocha);
    let rows = vec![row(
        (CAP as f64 * 0.95) as u64,
        Load::NearCap,
        MemLevel::Critical,
    )];
    let t = table_on(140, &rows);
    assert_eq!(t.rows[0].style.fg, m.near_cap);
    assert!(t.rows[0].mem_style.is_none());
}

#[test]
fn gauge_is_normal_color_and_unmarked_when_normal() {
    let m = Palette::for_flavor(Flavor::Mocha);
    let rows = vec![row(1024 * 1024 * 1024, Load::Busy, MemLevel::Normal)];
    let g = gauge_text(&rows, SLICE_CAP, 85, 90, &m);
    assert_eq!(g.fill, m.gauge);
    assert!(!g.label.contains("warn"));
    assert!(!g.label.contains("NEAR CAP"));
    assert_eq!(g.label, "1.0 / 24 GiB");
}

#[test]
fn gauge_warn_color_with_marker_in_warn_band() {
    let m = Palette::for_flavor(Flavor::Mocha);
    let cap = 4 * 1024 * 1024 * 1024;
    let rows = vec![row((cap as f64 * 0.87) as u64, Load::Busy, MemLevel::Warn)];
    let g = gauge_text(&rows, cap, 85, 90, &m);
    assert_eq!(g.fill, m.warn);
    assert!(g.label.contains("\u{26a0} warn"));
    assert_eq!(g.label, "3.5 / 4 GiB \u{26a0} warn");
}

#[test]
fn gauge_red_with_marker_when_critical() {
    let m = Palette::for_flavor(Flavor::Mocha);
    let cap = 4 * 1024 * 1024 * 1024;
    let rows = vec![row(
        (cap as f64 * 0.95) as u64,
        Load::NearCap,
        MemLevel::Critical,
    )];
    let g = gauge_text(&rows, cap, 85, 90, &m);
    assert_eq!(g.fill, m.near_cap);
    assert!(g.label.contains("\u{26a0} NEAR CAP"));
}

#[test]
fn caps_are_shown_as_doubles_round_them() {
    let p = Palette::for_flavor(Flavor::Mocha);
    let gib_unit = 1024.0 * 1024.0 * 1024.0;
    let half: u64 = 512 * 1024 * 1024;
    for cap in [0, 1, half - 1, half, half + 1, 3 * half, 5 * half, u64::MAX] {
        let g = gauge_text(&[], cap, 85, 90, &p);
        let expected = (cap as f64 / gib_unit).round() as u64;
        assert_eq!(g.label, format!("0.0 / {expected} GiB"), "{cap}");
    }
}

#[test]
fn empty_rows_with_unmatched_containers_names_the_prefix() {
    let content = empty_state_message(0, 6, "ci-runner-");
    assert!(content.contains("6 containers running"));
    assert!(content.contains("ci-runner-"));
    assert_eq!(
        content,
        "6 containers running, none match prefix 'ci-runner-'"
    );
}

#[test]
fn empty_rows_with_matched_but_no_stats_shows_stats_pending() {
    let content = empty_state_message(3, 2, "ci-runner-");
    assert!(content.contains("waiting for runner stats"));
    assert!(!content.contains("none match"));
    assert_eq!(
        empty_state_message(0, 0, "ci-runner-"),
        "waiting for runners\u{2026}"
    );
}

#[test]
fn the_empty_message_is_in_the_middle() {
    let area = Area {
        x: 2,
        y: 2,
        width: 76,
        height: 5,
    };
    assert_eq!(
        empty_state_area(area),
        Area {
            x: 2,
            y: 4,
            width: 76,
            height: 1
        }
    );
}

#[test]
fn hosted_height_is_zero_when_empty_and_caps_with_overflow() {
    assert_eq!(hosted_height(0), 0);
    assert_eq!(hosted_height(3), 1 + 3);
    assert_eq!(hosted_height(HOSTED_CAP), 1 + HOSTED_CAP as u16);
    assert_eq!(hosted_height(HOSTED_CAP + 5), 1 + HOSTED_CAP as u16 + 1);
}

#[test]
fn fmt_wait_compact_units() {
    assert_eq!(fmt_wait(8), "8s");
    assert_eq!(fmt_wait(125), "2m");
    assert_eq!(fmt_wait(3720), "1h2m");
}

fn hosted(repo: &str, job: &str, label: &str, status: HostedStatus, ago: i64) -> HostedJob {
    HostedJob {
        repo: repo.into(),
        workflow: "CI".into(),
        job: job.into(),
        label: label.into(),
        branch: "main".into(),
        status,
        since: at(NOW - ago),
    }
}

#[test]
fn hosted_section_shows_running_glyph_queued_label_and_overflow_count() {
    let mut jobs = vec![hosted(
        "o/r",
        "Lint",
        "ubuntu-24.04",
        HostedStatus::Queued,
        10,
    )];
    for i in 0..7 {
        jobs.push(hosted(
            "o/r",
            &format!("Build-{i}"),
            "ubuntu-latest",
            HostedStatus::InProgress,
            30,
        ));
    }
    assert_eq!(jobs.len(), 8);
    let palette = Palette::for_flavor(Flavor::Mocha);
    let v = view(&[], &jobs, &[], &palette);
    let (_, t) = hosted_section(inner(140), &v);
    let content = list_text(&t);
    assert!(content.contains('\u{25cf}'), "running glyph should render");
    assert!(
        content.contains("queued"),
        "queued elapsed cell should render"
    );
    assert!(
        content.contains("+2 more"),
        "overflow line should show +2 more"
    );
    let screen = Area {
        x: 0,
        y: 0,
        width: 140,
        height: 20,
    };
    let section = frame_sections(screen, &v).hosted.unwrap();
    assert_eq!(section.height, hosted_height(8) + 2);
    assert!(
        content.contains("workflow \u{203a} job"),
        "hosted first header should be relabeled to workflow \u{203a} job"
    );
    assert_eq!(t.rows.len(), 7);
    assert_eq!(t.rows[0].fg, palette.warn);
    assert_eq!(t.rows[1].fg, palette.busy);
    assert_eq!(t.rows[6].fg, palette.idle);
}

#[test]
fn hosted_long_wait_ellipsizes_instead_of_hard_clipping() {
    let jobs = vec![hosted(
        "o/r",
        "Lint",
        "ubuntu-24.04",
        HostedStatus::Queued,
        360_000,
    )];
    let palette = Palette::for_flavor(Flavor::Mocha);
    let (_, t) = hosted_section(inner(140), &view(&[], &jobs, &[], &palette));
    let content = list_text(&t);
    assert!(
        content.contains('\u{2026}'),
        "long elapsed cell should ellipsize"
    );
    assert!(
        !content.contains("100h0m"),
        "full wait must not render intact past the column width"
    );
    assert_eq!(t.rows[0].cells[3], "queued 100h\u{2026}");
}

#[test]
fn hosted_header_ellipsizes_on_a_narrow_terminal() {
    let jobs = vec![hosted(
        "o/r",
        "Lint",
        "ubuntu-latest",
        HostedStatus::InProgress,
        30,
    )];
    let palette = Palette::for_flavor(Flavor::Mocha);
    let (_, t) = hosted_section(inner(52), &view(&[], &jobs, &[], &palette));
    let content = list_text(&t);
    assert!(content.contains("workflow"), "hosted header should render");
    assert!(
        !content.contains("workflow \u{203a} job"),
        "narrow header must truncate, not render the full 14-col label"
    );
    assert!(
        content.contains('\u{2026}'),
        "truncation ellipsis should appear"
    );
}

#[test]
fn hosted_repo_column_shown_only_when_multi_repo() {
    let jobs = vec![
        hosted(
            "erwins-enkel/pulse",
            "Build",
            "ubuntu-latest",
            HostedStatus::InProgress,
            30,
        ),
        hosted(
            "scoop/vanscout",
            "Verify",
            "ubuntu-latest",
            HostedStatus::InProgress,
            20,
        ),
    ];
    let palette = Palette::for_flavor(Flavor::Mocha);
    let render_with = |multi_repo: bool| -> String {
        let mut v = view(&[], &jobs, &[], &palette);
        v.multi_repo = multi_repo;
        list_text(&hosted_section(inner(140), &v).1)
    };
    let multi = render_with(true);
    assert!(multi.contains("repo"), "repo header should render");
    assert!(multi.contains("erwins-enkel/pulse"));
    assert!(multi.contains("scoop/vanscout"));

    let single = render_with(false);
    assert!(!single.contains("erwins-enkel/pulse"));
    assert!(!single.contains("scoop/vanscout"));
}

#[test]
fn repository_columns_measure_what_is_shown() {
    let mut jobs: Vec<HostedJob> = (0..6)
        .map(|_| hosted("a/b", "j", "l", HostedStatus::Queued, 1))
        .collect();
    assert_eq!(repo_col_width(&jobs), 4);
    jobs.push(hosted(
        "very/long-repository",
        "j",
        "l",
        HostedStatus::Queued,
        1,
    ));
    assert_eq!(repo_col_width(&jobs), 4);
    jobs[0].repo = "owner/repo".into();
    assert_eq!(repo_col_width(&jobs), 10);
    let mut d = deployment("p", DeployStatus::Building, 1);
    d.repo = "owner/repository".into();
    assert_eq!(deploy_repo_col_width(&[d]), 16);
    assert_eq!(deploy_repo_col_width(&[]), 4);
}

fn deployment(project: &str, status: DeployStatus, ago: i64) -> Deployment {
    Deployment {
        repo: "o/r".into(),
        project: project.into(),
        target: "production".into(),
        branch: "main".into(),
        commit_summary: "fix: thing".into(),
        status,
        started_at: at(NOW - ago),
    }
}

fn deployments_on(width: u16, deployments: &[Deployment], multi_repo: bool) -> ListTable {
    let palette = Palette::for_flavor(Flavor::Mocha);
    let mut v = view(&[], &[], deployments, &palette);
    v.multi_repo = multi_repo;
    vercel_section(inner(width), &v).1
}

#[test]
fn vercel_height_is_zero_when_empty_and_caps_with_overflow() {
    assert_eq!(vercel_height(0), 0);
    assert_eq!(vercel_height(3), 1 + 3);
    assert_eq!(vercel_height(VERCEL_CAP), 1 + VERCEL_CAP as u16);
    assert_eq!(vercel_height(VERCEL_CAP + 5), 1 + VERCEL_CAP as u16 + 1);
}

#[test]
fn vercel_section_renders_building_and_queued() {
    let mut building = deployment("pulse", DeployStatus::Building, 30);
    building.commit_summary = "feat: add pulse widget".into();
    let mut queued = deployment("shepherd", DeployStatus::Queued, 10);
    queued.commit_summary = "fix: shepherd retry".into();
    let deployments = vec![building, queued];
    let content = list_text(&deployments_on(140, &deployments, false));
    assert!(content.contains("pulse"));
    assert!(content.contains("shepherd"));
    assert!(content.contains('\u{25cf}'), "building glyph should render");
    assert!(content.contains('\u{25cb}'), "queued glyph should render");
    assert!(
        content.contains("queued"),
        "queued elapsed cell should render"
    );
    let palette = Palette::for_flavor(Flavor::Mocha);
    let screen = Area {
        x: 0,
        y: 0,
        width: 140,
        height: 20,
    };
    assert!(
        frame_sections(screen, &view(&[], &[], &deployments, &palette))
            .vercel
            .is_some()
    );
    assert!(
        content.contains("project"),
        "project column header should render"
    );
    assert!(
        content.contains("feat: add pulse widget"),
        "commit summary column should render"
    );
    assert!(
        content.contains("fix: shepherd retry"),
        "commit summary column should render for queued row too"
    );
}

#[test]
fn vercel_section_auto_hides_when_empty() {
    let palette = Palette::for_flavor(Flavor::Mocha);
    let screen = Area {
        x: 0,
        y: 0,
        width: 140,
        height: 20,
    };
    let s = frame_sections(screen, &view(&[], &[], &[], &palette));
    assert!(s.vercel.is_none());
    assert!(s.hosted.is_none());
    assert_eq!(vercel_height(0), 0);
}

#[test]
fn vercel_overflow_collapses_but_keeps_building_visible() {
    let mut deployments = vec![deployment("pulse", DeployStatus::Building, 30)];
    for i in 0..7 {
        deployments.push(deployment(&format!("proj-{i}"), DeployStatus::Queued, 5));
    }
    assert_eq!(deployments.len(), 8);
    let content = list_text(&deployments_on(140, &deployments, false));
    assert!(
        content.contains('\u{25cf}'),
        "building glyph should still be visible past the cap"
    );
    assert!(content.contains("+2 more"));
}

#[test]
fn deployments_show_their_repository_when_there_are_several() {
    let d = vec![deployment("pulse", DeployStatus::Queued, 125)];
    let t = deployments_on(140, &d, true);
    assert_eq!(
        t.header,
        vec!["project", "repo", "target", "branch", "commit", "elapsed"]
    );
    assert_eq!(
        t.rows[0].cells,
        vec![
            "\u{25cb} pulse",
            "o/r",
            "production",
            "main",
            "fix: thing",
            "queued 2m"
        ]
    );
    let single = deployments_on(140, &d, false);
    assert_eq!(single.rows[0].cells.len(), 5);
}

#[test]
fn all_sections_have_their_place_in_order() {
    let palette = Palette::for_flavor(Flavor::Mocha);
    let rows = vec![busy_row("ci-runner-1", "CI", "test", "main", 30)];
    let jobs = vec![hosted(
        "o/r",
        "Lint",
        "ubuntu-latest",
        HostedStatus::InProgress,
        30,
    )];
    let deployments = vec![deployment("pulse", DeployStatus::Building, 30)];
    let mut v = view(&rows, &jobs, &deployments, &palette);
    v.status = Some("gh: o/r".into());
    let s = frame_sections(
        Area {
            x: 0,
            y: 0,
            width: 140,
            height: 24,
        },
        &v,
    );
    let places = [
        s.title,
        s.banner.unwrap(),
        s.runners,
        s.hosted.unwrap(),
        s.vercel.unwrap(),
        s.memory,
    ];
    let spans: Vec<(u16, u16)> = places.iter().map(|a| (a.y, a.height)).collect();
    assert_eq!(
        spans,
        vec![(0, 1), (1, 1), (2, 11), (13, 4), (17, 4), (21, 3)]
    );
}

fn lies_within(inner: Area, outer: Area) -> bool {
    let right = |a: Area| a.x as u32 + a.width as u32;
    let bottom = |a: Area| a.y as u32 + a.height as u32;
    outer.x <= inner.x
        && outer.y <= inner.y
        && right(inner) <= right(outer)
        && bottom(inner) <= bottom(outer)
}

#[test]
fn sections_and_columns_lie_within_their_area() {
    let palette = Palette::for_flavor(Flavor::Mocha);
    let rows = vec![busy_row("ci-runner-12345", "CI", "test", "main", 5)];
    let jobs = vec![hosted(
        "o/r",
        "Build",
        "ubuntu-latest",
        HostedStatus::Queued,
        5,
    )];
    let deployments = vec![deployment("pulse", DeployStatus::Building, 5)];
    for (x, y, width, height) in [
        (0, 0, 140, 30),
        (3, 2, 80, 24),
        (0, 0, 20, 5),
        (7, 7, 1, 1),
        (0, 0, 0, 0),
        (65_000, 65_000, 535, 535),
    ] {
        let screen = Area {
            x,
            y,
            width,
            height,
        };
        let mut v = view(&rows, &jobs, &deployments, &palette);
        v.status = Some("docker: x".into());
        let s = frame_sections(screen, &v);
        for a in [
            s.title,
            s.banner.unwrap(),
            s.runners,
            s.hosted.unwrap(),
            s.vercel.unwrap(),
            s.memory,
        ] {
            assert!(lies_within(a, screen), "{a:?} in {screen:?}");
            assert_eq!((a.x, a.width), (screen.x, screen.width));
        }
        assert!(lies_within(empty_state_area(screen), screen));
        let columns = column_layout(screen, 15);
        assert_eq!(columns.len(), 8);
        for a in columns {
            assert!(lies_within(a, screen), "{a:?} in {screen:?}");
            assert_eq!((a.y, a.height), (screen.y, screen.height));
        }
    }
}

#[test]
fn very_wide_names_get_the_widest_column_there_is() {
    for columns in [65_535, 65_536, 65_540, 131_072] {
        let mut wide = row(0, Load::Idle, MemLevel::Normal);
        wide.name = "a".repeat(columns);
        assert_eq!(runner_col_width(&[wide]), u16::MAX);
        let mut job = hosted("o/r", "Build", "x", HostedStatus::Queued, 1);
        job.repo = "a".repeat(columns);
        assert_eq!(repo_col_width(&[job]), u16::MAX);
        let mut d = deployment("pulse", DeployStatus::Queued, 1);
        d.repo = "a".repeat(columns);
        assert_eq!(deploy_repo_col_width(&[d]), u16::MAX);
    }
}

#[test]
fn the_gauge_leaves_native_runners_out() {
    let p = Palette::for_flavor(Flavor::Mocha);
    let gib = 1024 * 1024 * 1024;
    let docker = row(3 * gib, Load::Idle, MemLevel::Normal);
    let mut native = row(20 * gib, Load::Idle, MemLevel::Normal);
    native.kind = SourceKind::Native;
    let gauge = gauge_text(&[docker, native], SLICE_CAP, 85, 90, &p);
    assert_eq!(gauge.total, 3 * gib);
    assert_eq!(gauge.label, "3.0 / 24 GiB");
    assert_eq!(gauge.fill, p.gauge);
}
