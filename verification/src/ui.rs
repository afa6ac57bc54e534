//! What the screen shows: texts, columns, colours and where the sections go.

use crate::model::{
    deployment_views, elapsed_secs, hosted_views, level_of, levels_go_by_percentages, mem_level,
    row_views, seconds_between, slice_total_bytes, total_bytes, DeployStatus, Deployment,
    DeploymentView, HostedJob, HostedStatus, HostedView, Load, MemLevel, RowView, RunnerRow, Timestamp,
};
use crate::text::{
    chars_of, decimal, decimal_text, decimals_grow_digit_by_digit, digit_char, joined, text_range,
    texts,
};
use crate::theme::{Color, Palette};
use ratatui::layout::{Constraint, Direction, Layout, Rect};
use vstd::prelude::View as _;
use vstd::prelude::*;

verus! {

/// The bytes of one mebibyte.
pub const MIB: u64 = 1_048_576;

/// The bytes of one gibibyte.
pub const GIB: u64 = 1_073_741_824;

/// The first whole number that a double-precision number may have to round.
pub const EXACT_LIMIT: u64 = 9_007_199_254_740_992;

/// `a / b` rounded to the nearest whole number, and halfway cases to the even one.
pub open spec fn round_even(a: nat, b: nat) -> nat {
    let q = a / b;
    let r = a % b;
    if 2 * r > b || (2 * r == b && q % 2 == 1) {
        q + 1
    } else {
        q
    }
}

/// The distance between neighbouring double-precision numbers at `n`.
pub open spec fn grain(n: nat) -> nat
    decreases n,
{
    if n < EXACT_LIMIT {
        1
    } else {
        2 * grain(n / 2)
    }
}

/// The double-precision number nearest to `n`.
pub open spec fn nearest(n: nat) -> nat {
    round_even(n, grain(n)) * grain(n)
}

/// How many tenths of `unit` there are in `bytes`, rounded.
pub open spec fn tenths(bytes: nat, unit: nat) -> nat {
    round_even(10 * nearest(bytes), unit)
}

/// A number of tenths with one digit behind the point.
pub open spec fn tenths_shown(t: nat) -> Seq<char> {
    decimal(t / 10) + seq!['.', digit_char(t % 10)]
}

/// An amount of memory with its unit: mebibytes below one gibibyte, unless they would
/// round up to 1024.
pub open spec fn mem_shown(bytes: u64) -> Seq<char> {
    if bytes >= GIB || tenths(bytes as nat, MIB as nat) == 10240 {
        tenths_shown(tenths(bytes as nat, GIB as nat)) + "GiB"@
    } else {
        tenths_shown(tenths(bytes as nat, MIB as nat)) + "MiB"@
    }
}

proof fn lemma_grain(n: nat)
    ensures
        grain(n) >= 1,
        n / grain(n) < EXACT_LIMIT,
    decreases n,
{
    if n >= EXACT_LIMIT {
        lemma_grain(n / 2);
        let g = grain(n / 2);
        assert(n / (2 * g) == (n / 2) / g) by (nonlinear_arith)
            requires
                g >= 1,
        ;
    }
}

proof fn lemma_grain_bound(n: nat)
    requires
        n < 0x1_0000_0000_0000_0000,
    ensures
        grain(n) <= 2048,
{
    reveal_with_fuel(grain, 13);
}

fn round_even_div(a: u128, b: u128) -> (r: u128)
    requires
        0 < b <= 0x8000_0000_0000_0000,
        a <= 0x1_0000_0000_0000_0000_0000,
    ensures
        r == round_even(a as nat, b as nat),
        r <= a / b + 1,
{
    let q: u128 = a / b;
    let rest: u128 = a % b;
    assert(q <= a) by (nonlinear_arith)
        requires
            q == a / b,
            b >= 1,
            a >= 0,
    ;
    if 2 * rest > b || (2 * rest == b && q % 2 == 1) {
        q + 1
    } else {
        q
    }
}

fn nearest_double(n: u64) -> (r: u128)
    ensures
        r == nearest(n as nat),
        r <= 0x1_0000_0000_0000_0000,
{
    let mut g: u128 = 1;
    let mut m: u64 = n;
    proof {
        lemma_grain(n as nat);
        lemma_grain_bound(n as nat);
    }
    while m >= EXACT_LIMIT
        invariant
            grain(n as nat) == g * grain(m as nat),
            grain(n as nat) <= 2048,
            1 <= g <= 2048,
        decreases m,
    {
        proof {
            let half = (m / 2) as nat;
            lemma_grain(half);
            assert(g * (2 * grain(half)) == (2 * g) * grain(half)) by (nonlinear_arith);
            assert((2 * g) * grain(half) >= 2 * g) by (nonlinear_arith)
                requires
                    grain(half) >= 1,
                    g >= 1,
            ;
        }
        g = 2 * g;
        m = m / 2;
    }
    assert(g * 1 == g);
    let q = round_even_div(n as u128, g);
    proof {
        assert(q <= EXACT_LIMIT);
        assert(q * g <= 0x20_0000_0000_0000 * 2048) by (nonlinear_arith)
            requires
                0 <= q <= 0x20_0000_0000_0000,
                0 <= g <= 2048,
        ;
    }
    q * g
}

fn tenths_of(bytes: u64, unit: u64) -> (r: u128)
    requires
        MIB <= unit <= GIB,
    ensures
        r == tenths(bytes as nat, unit as nat),
        r <= 0x1_0000_0000_0000,
{
    let x = nearest_double(bytes);
    let r = round_even_div(10 * x, unit as u128);
    proof {
        let a = 10 * x;
        assert(a / (unit as int) <= 10 * 0x1000_0000_0000) by (nonlinear_arith)
            requires
                0 <= a <= 10 * 0x1_0000_0000_0000_0000,
                unit >= 0x10_0000,
        ;
    }
    r
}

fn tenths_text(t: u128) -> (r: String)
    requires
        t <= 0x1_0000_0000_0000,
    ensures
        r@ == tenths_shown(t as nat),
{
    let whole: u64 = (t / 10) as u64;
    let rest: u64 = (t % 10) as u64;
    let mut out = decimal_text(whole);
    out.push('.');
    let digit: u8 = rest as u8;
    out.push((48 + digit) as char);
    assert(out@ =~= tenths_shown(t as nat));
    out
}

/// An amount of memory with its unit.
pub fn fmt_mem(bytes: u64) -> (r: String)
    ensures
        r@ == mem_shown(bytes),
{
    let mib = tenths_of(bytes, MIB);
    if bytes >= GIB || mib == 10240 {
        tenths_text(tenths_of(bytes, GIB)).concat("GiB")
    } else {
        tenths_text(mib).concat("MiB")
    }
}

/// An amount that is shown in mebibytes is shown as less than 1024 of them.
pub proof fn mebibytes_stay_below_a_gibibyte(bytes: u64)
    ensures
        mem_shown(bytes) == tenths_shown(tenths(bytes as nat, MIB as nat)) + "MiB"@
            || mem_shown(bytes) == tenths_shown(tenths(bytes as nat, GIB as nat)) + "GiB"@,
        bytes < GIB ==> tenths(bytes as nat, MIB as nat) <= 10240,
        !(bytes >= GIB || tenths(bytes as nat, MIB as nat) == 10240) ==> tenths(
            bytes as nat,
            MIB as nat,
        ) < 10240,
{
    if bytes < GIB {
        assert(grain(bytes as nat) == 1);
        assert(nearest(bytes as nat) == bytes);
    }
}

/// A number below one hundred with two digits.
pub open spec fn two_digits(n: nat) -> Seq<char> {
    if n < 10 {
        seq!['0'] + decimal(n)
    } else {
        decimal(n)
    }
}

/// A duration as hours, minutes and seconds, without the hours where there are none.
pub open spec fn elapsed_shown(secs: u64) -> Seq<char> {
    let h = (secs / 3600) as nat;
    let m = ((secs % 3600) / 60) as nat;
    let s = (secs % 60) as nat;
    if h > 0 {
        decimal(h) + ":"@ + two_digits(m) + ":"@ + two_digits(s)
    } else {
        two_digits(m) + ":"@ + two_digits(s)
    }
}

fn two_digit_text(n: u64) -> (r: String)
    ensures
        r@ == two_digits(n as nat),
{
    let digits = decimal_text(n);
    if n < 10 {
        let mut out = String::new();
        out.push('0');
        out.append(digits.as_str());
        assert(out@ =~= seq!['0'] + decimal(n as nat));
        out
    } else {
        digits
    }
}

/// A duration as hours, minutes and seconds.
pub fn fmt_elapsed(secs: u64) -> (r: String)
    ensures
        r@ == elapsed_shown(secs),
{
    let h: u64 = secs / 3600;
    let m = two_digit_text((secs % 3600) / 60);
    let s = two_digit_text(secs % 60);
    let mut out = if h > 0 {
        decimal_text(h).concat(":").concat(m.as_str())
    } else {
        m
    };
    out.append(":");
    out.append(s.as_str());
    out
}

/// A waiting time in its largest units.
pub open spec fn wait_shown(secs: u64) -> Seq<char> {
    if secs < 60 {
        decimal(secs as nat) + "s"@
    } else if secs < 3600 {
        decimal((secs / 60) as nat) + "m"@
    } else {
        decimal((secs / 3600) as nat) + "h"@ + decimal(((secs % 3600) / 60) as nat) + "m"@
    }
}

/// A waiting time in its largest units.
pub fn fmt_wait(secs: u64) -> (r: String)
    ensures
        r@ == wait_shown(secs),
{
    if secs < 60 {
        decimal_text(secs).concat("s")
    } else if secs < 3600 {
        decimal_text(secs / 60).concat("m")
    } else {
        let m = decimal_text((secs % 3600) / 60);
        decimal_text(secs / 3600).concat("h").concat(m.as_str()).concat("m")
    }
}

/// How many hosted jobs are listed.
pub const HOSTED_CAP: usize = 6;

/// How many deployments are listed.
pub const VERCEL_CAP: usize = 6;

/// The lines of a list of `n` entries of which `cap` are shown: a header, the entries, and
/// a line for the rest. An empty list has none.
pub open spec fn list_height(n: nat, cap: nat) -> nat {
    if n == 0 {
        0
    } else if n > cap {
        cap + 2
    } else {
        n + 1
    }
}

/// The lines of the list of hosted jobs.
pub fn hosted_height(n: usize) -> (r: u16)
    ensures
        r == list_height(n as nat, HOSTED_CAP as nat),
        r <= 8,
{
    if n == 0 {
        return 0;
    }
    if n > HOSTED_CAP {
        8
    } else {
        n as u16 + 1
    }
}

/// The lines of the list of deployments.
pub fn vercel_height(n: usize) -> (r: u16)
    ensures
        r == list_height(n as nat, VERCEL_CAP as nat),
        r <= 8,
{
    if n == 0 {
        return 0;
    }
    if n > VERCEL_CAP {
        8
    } else {
        n as u16 + 1
    }
}

/// `char::from_u32`: the character with this number, where there is one.
pub assume_specification[ char::from_u32 ](i: u32) -> (r: Option<char>)
    ensures
        i <= 0xd7ff || 0xe000 <= i <= 0x10ffff ==> r == Some(i as char),
        0xd800 <= i <= 0xdfff || i > 0x10ffff ==> r is None,
;

/// The left dots of a Braille cell that is filled from below to a height.
pub open spec fn left_dots(h: int) -> int {
    if h <= 0 {
        0
    } else if h == 1 {
        0x40
    } else if h == 2 {
        0x44
    } else if h == 3 {
        0x46
    } else {
        0x47
    }
}

/// The right dots of a Braille cell that is filled from below to a height.
pub open spec fn right_dots(h: int) -> int {
    if h <= 0 {
        0
    } else if h == 1 {
        0x80
    } else if h == 2 {
        0xa0
    } else if h == 3 {
        0xb0
    } else {
        0xb8
    }
}

/// The Braille cell whose columns are filled from below to these heights.
pub open spec fn glyph(hl: int, hr: int) -> char {
    (0x2800 + left_dots(hl) + right_dots(hr)) as char
}

fn dots(h: usize, one: u32, two: u32, three: u32, four: u32) -> (r: u32)
    ensures
        r == (if h == 0 {
            0
        } else if h == 1 {
            one
        } else if h == 2 {
            two
        } else if h == 3 {
            three
        } else {
            four
        }),
{
    match h {
        0 => 0,
        1 => one,
        2 => two,
        3 => three,
        _ => four,
    }
}

/// The Braille cell whose columns are filled from below to these heights; four fills a
/// column.
pub fn braille_glyph(hl: usize, hr: usize) -> (r: char)
    ensures
        r == glyph(hl as int, hr as int),
        '\u{2800}' <= r <= '\u{28ff}',
{
    let bits: u32 = 0x2800 + dots(hl, 0x40, 0x44, 0x46, 0x47) + dots(hr, 0x80, 0xa0, 0xb0, 0xb8);
    match char::from_u32(bits) {
        Some(c) => c,
        None => ' ',
    }
}

/// A cell of a sparkline: what it shows, and which samples its two columns stand for.
#[derive(Clone, Copy, Debug, PartialEq, Eq, Structural)]
pub struct SparkCell {
    pub glyph: char,
    pub left: Option<usize>,
    pub right: Option<usize>,
}

/// The sample that column `k` of a sparkline of `width` cells stands for, out of `n`: the
/// newest is in the last column, and columns in front of the oldest are empty.
pub open spec fn sample_in(n: nat, width: nat, k: nat) -> Option<usize> {
    let i = n - 2 * width + k;
    if 0 <= i < n {
        Some(i as usize)
    } else {
        None
    }
}

/// The height of a column: that of its sample, or none.
pub open spec fn height_in(heights: Seq<usize>, sample: Option<usize>) -> int {
    match sample {
        Some(i) => heights[i as int] as int,
        None => 0,
    }
}

/// Cell `c` of a sparkline of `width` cells.
pub open spec fn spark_cell(heights: Seq<usize>, width: nat, c: nat) -> SparkCell {
    let left = sample_in(heights.len(), width, 2 * c);
    let right = sample_in(heights.len(), width, 2 * c + 1);
    SparkCell {
        glyph: if left is None && right is None {
            ' '
        } else {
            glyph(height_in(heights, left), height_in(heights, right))
        },
        left,
        right,
    }
}

fn sample_at(n: usize, slots: usize, k: usize) -> (r: Option<usize>)
    requires
        k < slots,
        slots % 2 == 0,
    ensures
        r == sample_in(n as nat, (slots / 2) as nat, k as nat),
{
    let back: usize = slots - k;
    if back <= n {
        Some(n - back)
    } else {
        None
    }
}

/// The cells of a sparkline of `width` cells, given the height of each sample, the oldest
/// first. Each cell holds two samples, and the newest one is at the right edge.
pub fn spark_cells(heights: &[usize], width: usize) -> (r: Vec<SparkCell>)
    requires
        2 * width <= usize::MAX,
    ensures
        r@.len() == width,
        forall|c: int|
            0 <= c < width ==> #[trigger] r@[c] == spark_cell(heights@, width as nat, c as nat),
{
    let n = heights.len();
    let slots: usize = 2 * width;
    let mut out: Vec<SparkCell> = Vec::new();
    let mut c: usize = 0;
    while c < width
        invariant
            c <= width,
            slots == 2 * width,
            n == heights@.len(),
            out@.len() == c,
            forall|k: int|
                0 <= k < c ==> #[trigger] out@[k] == spark_cell(heights@, width as nat, k as nat),
        decreases width - c,
    {
        let left = sample_at(n, slots, 2 * c);
        let right = sample_at(n, slots, 2 * c + 1);
        let hl: usize = match left {
            Some(i) => heights[i],
            None => 0,
        };
        let hr: usize = match right {
            Some(i) => heights[i],
            None => 0,
        };
        let glyph = if left.is_none() && right.is_none() {
            ' '
        } else {
            braille_glyph(hl, hr)
        };
        out.push(SparkCell { glyph, left, right });
        c += 1;
    }
    out
}

/// The newest sample is in the right column of a sparkline's last cell.
pub proof fn newest_sample_is_at_the_right_edge(heights: Seq<usize>, width: nat)
    requires
        heights.len() > 0,
        heights.len() <= usize::MAX,
        width > 0,
    ensures
        spark_cell(heights, width, (width - 1) as nat).right == Some((heights.len() - 1) as usize),
{
}

/// A sparkline shows the newest samples in order: neighbouring columns stand for
/// neighbouring samples, and nothing is shown in front of the oldest.
pub proof fn sparkline_keeps_the_order(n: nat, width: nat, k: nat)
    requires
        n <= usize::MAX,
        k + 1 < 2 * width,
    ensures
        match sample_in(n, width, k) {
            Some(i) => sample_in(n, width, k + 1) == Some((i + 1) as usize),
            None => sample_in(n, width, k + 1) matches Some(i) ==> i == 0,
        },
{
}

/// The colours of a text, and whether it is dimmed.
#[derive(Clone, Copy, Debug, PartialEq, Eq, Structural)]
pub struct TextStyle {
    pub fg: Color,
    pub bg: Color,
    pub dim: bool,
}

/// How a runner's row looks: idle rows are dimmed, but not on a light background.
pub open spec fn style_of(load: Load, p: Palette) -> TextStyle {
    TextStyle {
        fg: match load {
            Load::Idle => p.idle,
            Load::Busy => p.busy,
            Load::NearCap => p.near_cap,
        },
        bg: p.base,
        dim: load is Idle && !p.is_light,
    }
}

/// How a runner's row looks.
pub fn load_style(load: Load, p: &Palette) -> (r: TextStyle)
    ensures
        r == style_of(load, *p),
{
    match load {
        Load::Idle => TextStyle { fg: p.idle, bg: p.base, dim: !p.is_light },
        Load::Busy => TextStyle { fg: p.busy, bg: p.base, dim: false },
        Load::NearCap => TextStyle { fg: p.near_cap, bg: p.base, dim: false },
    }
}

/// How a memory cell looks where it differs from its row: a warning has its own colour and
/// is never dimmed, so that it shows on an idle row too.
pub open spec fn mem_style_of(level: MemLevel, p: Palette) -> Option<TextStyle> {
    if level is Warn {
        Some(TextStyle { fg: p.warn, bg: p.base, dim: false })
    } else {
        None
    }
}

/// How a memory cell looks where it differs from its row.
pub fn mem_style(level: MemLevel, p: &Palette) -> (r: Option<TextStyle>)
    ensures
        r == mem_style_of(level, *p),
        r == Some(TextStyle { fg: p.warn, bg: p.base, dim: false }) <==> level is Warn,
        r is None <==> !(level is Warn),
{
    match level {
        MemLevel::Warn => Some(TextStyle { fg: p.warn, bg: p.base, dim: false }),
        _ => None,
    }
}

/// The columns that `UnicodeWidthStr::width` gives a text.
pub uninterp spec fn text_width(text: Seq<char>) -> usize;

/// `UnicodeWidthStr::width`: the columns that a text takes on a terminal; they depend on
/// the text alone.
#[verifier::external_body]
fn width_of(s: &str) -> (r: usize)
    ensures
        r == text_width(s@),
{
    unicode_width::UnicodeWidthStr::width(s)
}

/// The columns that `UnicodeWidthChar::width` gives a character; none for a control
/// character.
pub uninterp spec fn char_width(c: char) -> Option<usize>;

/// `UnicodeWidthChar::width`: the columns that a character takes on a terminal; they
/// depend on the character alone, and the ellipsis takes one.
#[verifier::external_body]
fn char_width_of(c: char) -> (r: Option<usize>)
    ensures
        r == char_width(c),
        c == '\u{2026}' ==> r == Some(1usize),
{
    unicode_width::UnicodeWidthChar::width(c)
}

/// The columns that a character counts for: a control character counts for none.
pub open spec fn columns(c: char) -> nat {
    match char_width(c) {
        Some(w) => w as nat,
        None => 0,
    }
}

/// The columns that the characters of a text count for.
pub open spec fn columns_of(s: Seq<char>) -> nat
    decreases s.len(),
{
    if s.len() == 0 {
        0
    } else {
        columns_of(s.drop_last()) + columns(s.last())
    }
}

/// How many characters at the front of a text fit into `budget` columns.
pub open spec fn fits_front(s: Seq<char>, budget: nat) -> nat
    decreases s.len(),
{
    if s.len() == 0 || columns(s[0]) > budget {
        0
    } else {
        1 + fits_front(s.skip(1), (budget - columns(s[0])) as nat)
    }
}

/// How many characters at the end of a text fit into `budget` columns.
pub open spec fn fits_back(s: Seq<char>, budget: nat) -> nat
    decreases s.len(),
{
    if s.len() == 0 || columns(s.last()) > budget {
        0
    } else {
        1 + fits_back(s.drop_last(), (budget - columns(s.last())) as nat)
    }
}

/// A text cut to `max` columns: where it is too wide, its front and an ellipsis.
pub open spec fn cut(s: Seq<char>, max: nat) -> Seq<char> {
    if text_width(s) <= max {
        s
    } else if max == 0 {
        Seq::empty()
    } else {
        s.take(fits_front(s, (max - 1) as nat) as int).push('\u{2026}')
    }
}

/// A text cut to `max` columns: where it is too wide, an ellipsis and its end.
pub open spec fn cut_front(s: Seq<char>, max: nat) -> Seq<char> {
    if text_width(s) <= max {
        s
    } else if max == 0 {
        Seq::empty()
    } else {
        seq!['\u{2026}'] + s.skip(s.len() - fits_back(s, (max - 1) as nat))
    }
}

fn columns_for(c: char) -> (r: usize)
    ensures
        r == columns(c),
        c == '\u{2026}' ==> r == 1,
{
    match char_width_of(c) {
        Some(w) => w,
        None => 0,
    }
}

proof fn lemma_fits_front(s: Seq<char>, budget: nat)
    ensures
        fits_front(s, budget) <= s.len(),
        columns_of(s.take(fits_front(s, budget) as int)) <= budget,
        fits_front(s, budget) < s.len() ==> columns_of(s.take(fits_front(s, budget) as int + 1)) > budget,
    decreases s.len(),
{
    if s.len() > 0 && columns(s[0]) <= budget {
        let rest = (budget - columns(s[0])) as nat;
        lemma_fits_front(s.skip(1), rest);
        let k = fits_front(s.skip(1), rest);
        lemma_columns_of_cons(s[0], s.skip(1).take(k as int));
        assert(s.take(1 + k as int) =~= seq![s[0]] + s.skip(1).take(k as int));
        if k < s.skip(1).len() {
            lemma_columns_of_cons(s[0], s.skip(1).take(k as int + 1));
            assert(s.take(k as int + 2) =~= seq![s[0]] + s.skip(1).take(k as int + 1));
        }
    } else if s.len() > 0 {
        assert(s.take(1).drop_last() =~= Seq::empty());
        reveal_with_fuel(columns_of, 2);
    }
}

proof fn lemma_columns_of_cons(c: char, s: Seq<char>)
    ensures
        columns_of(seq![c] + s) == columns(c) + columns_of(s),
    decreases s.len(),
{
    let all = seq![c] + s;
    if s.len() == 0 {
        assert(all =~= seq![c]);
        assert(all.drop_last() =~= Seq::empty());
        reveal_with_fuel(columns_of, 2);
    } else {
        lemma_columns_of_cons(c, s.drop_last());
        assert(all.drop_last() =~= seq![c] + s.drop_last());
    }
}

proof fn lemma_fits_back(s: Seq<char>, budget: nat)
    ensures
        fits_back(s, budget) <= s.len(),
        columns_of(s.skip(s.len() - fits_back(s, budget))) <= budget,
        fits_back(s, budget) < s.len() ==> columns_of(s.skip(s.len() - fits_back(s, budget) - 1))
            > budget,
    decreases s.len(),
{
    if s.len() > 0 && columns(s.last()) <= budget {
        let rest = (budget - columns(s.last())) as nat;
        let front = s.drop_last();
        lemma_fits_back(front, rest);
        let k = fits_back(front, rest);
        let tail = s.skip(s.len() - (k + 1));
        assert(tail.drop_last() =~= front.skip(front.len() - k));
        assert(tail.last() == s.last());
        if k < front.len() {
            let more = s.skip(s.len() - (k + 1) - 1);
            assert(more.drop_last() =~= front.skip(front.len() - k - 1));
            assert(more.last() == s.last());
        }
    } else {
        assert(s.skip(s.len() as int) =~= Seq::empty());
        if s.len() > 0 {
            let last = s.skip(s.len() - 1);
            assert(last.drop_last() =~= Seq::empty());
            assert(last.last() == s.last());
            reveal_with_fuel(columns_of, 2);
        }
    }
}

/// `s` cut to `max` columns, its front kept. Where it is cut, its characters and the
/// ellipsis count for no more than `max` columns.
pub fn truncate_ellipsis(s: &str, max: usize) -> (r: String)
    ensures
        r@ == cut(s@, max as nat),
        text_width(s@) > max ==> columns_of(r@) <= max,
{
    if width_of(s) <= max {
        return s.to_owned();
    }
    if max == 0 {
        return String::new();
    }
    let ellipsis: usize = columns_for('\u{2026}');
    let budget: usize = max - ellipsis;
    let cs = chars_of(s);
    let mut left: usize = budget;
    let mut i: usize = 0;
    assert(cs@.skip(0) =~= cs@);
    while i < cs.len() && columns_for(cs[i]) <= left
        invariant
            i <= cs@.len(),
            fits_front(cs@, budget as nat) == i + fits_front(cs@.skip(i as int), left as nat),
        decreases cs@.len() - i,
    {
        proof {
            assert(cs@.skip(i as int).skip(1) =~= cs@.skip(i + 1));
        }
        left = left - columns_for(cs[i]);
        i += 1;
    }
    let mut out = text_range(&cs, 0, i);
    proof {
        assert(fits_front(cs@.skip(i as int), left as nat) == 0);
        assert(out@ =~= s@.take(i as int));
        lemma_fits_front(s@, budget as nat);
    }
    out.push('\u{2026}');
    assert(out@.drop_last() =~= s@.take(i as int));
    out
}

/// `s` cut to `max` columns, its end kept. Where it is cut, the ellipsis and its
/// characters count for no more than `max` columns.
pub fn truncate_ellipsis_front(s: &str, max: usize) -> (r: String)
    ensures
        r@ == cut_front(s@, max as nat),
        text_width(s@) > max ==> columns_of(r@) <= max,
{
    if width_of(s) <= max {
        return s.to_owned();
    }
    if max == 0 {
        return String::new();
    }
    let ellipsis: usize = columns_for('\u{2026}');
    let budget: usize = max - ellipsis;
    let cs = chars_of(s);
    let mut left: usize = budget;
    let mut from: usize = cs.len();
    assert(cs@.take(cs@.len() as int) =~= cs@);
    while from > 0 && columns_for(cs[from - 1]) <= left
        invariant
            from <= cs@.len(),
            fits_back(cs@, budget as nat) == cs@.len() - from + fits_back(
                cs@.take(from as int),
                left as nat,
            ),
        decreases from,
    {
        proof {
            assert(cs@.take(from as int).drop_last() =~= cs@.take(from - 1));
            assert(cs@.take(from as int).last() == cs@[from - 1]);
        }
        left = left - columns_for(cs[from - 1]);
        from -= 1;
    }
    let tail = text_range(&cs, from, cs.len());
    let mut out = String::new();
    out.push('\u{2026}');
    out.append(tail.as_str());
    proof {
        assert(fits_back(cs@.take(from as int), left as nat) == 0);
        assert(tail@ =~= s@.skip(from as int));
        assert(out@ =~= seq!['\u{2026}'] + s@.skip(from as int));
        lemma_fits_back(s@, budget as nat);
        lemma_columns_of_cons('\u{2026}', s@.skip(from as int));
    }
    out
}

/// A text that fits is left as it is; one that does not ends in an ellipsis, and what
/// precedes it is as much of the text's front as fits.
pub proof fn cut_texts_keep_their_front(s: Seq<char>, max: nat)
    ensures
        text_width(s) <= max ==> cut(s, max) == s,
        text_width(s) > 0 && max == 0 ==> cut(s, max).len() == 0,
        text_width(s) > max && max > 0 ==> cut(s, max).len() > 0 && cut(s, max).last()
            == '\u{2026}' && cut(s, max).drop_last().is_prefix_of(s) && (cut(s, max).len() <= s.len()
            ==> columns_of(s.take(cut(s, max).len() as int)) > max - 1),
{
    if text_width(s) > max && max > 0 {
        lemma_fits_front(s, (max - 1) as nat);
        let k = fits_front(s, (max - 1) as nat);
        assert(cut(s, max).drop_last() =~= s.take(k as int));
    }
}

/// A text that fits is left as it is; one that does not begins with an ellipsis, and what
/// follows it is as much of the text's end as fits.
pub proof fn front_cut_texts_keep_their_end(s: Seq<char>, max: nat)
    ensures
        text_width(s) <= max ==> cut_front(s, max) == s,
        text_width(s) > 0 && max == 0 ==> cut_front(s, max).len() == 0,
        text_width(s) > max && max > 0 ==> cut_front(s, max).len() > 0 && cut_front(s, max)[0]
            == '\u{2026}' && cut_front(s, max).skip(1).is_suffix_of(s) && (cut_front(s, max).len()
            <= s.len() ==> columns_of(s.skip(s.len() - cut_front(s, max).len())) > max - 1),
{
    if text_width(s) > max && max > 0 {
        lemma_fits_back(s, (max - 1) as nat);
        let k = fits_back(s, (max - 1) as nat);
        assert(cut_front(s, max).skip(1) =~= s.skip(s.len() - k));
    }
}

/// The widest of the texts, and no less than `floor`.
pub open spec fn widest(ts: Seq<Seq<char>>, floor: nat) -> nat
    decreases ts.len(),
{
    if ts.len() == 0 {
        floor
    } else {
        let front = widest(ts.drop_last(), floor);
        let last = text_width(ts.last()) as nat;
        if last > front {
            last
        } else {
            front
        }
    }
}

proof fn lemma_widest_floor(ts: Seq<Seq<char>>, floor: nat)
    ensures
        widest(ts, floor) >= floor,
        forall|i: int| 0 <= i < ts.len() ==> widest(ts, floor) >= text_width(#[trigger] ts[i]),
    decreases ts.len(),
{
    if ts.len() > 0 {
        lemma_widest_floor(ts.drop_last(), floor);
        assert forall|i: int| 0 <= i < ts.len() implies widest(ts, floor) >= text_width(
            #[trigger] ts[i],
        ) by {
            if i < ts.len() - 1 {
                assert(ts.drop_last()[i] == ts[i]);
            }
        }
    }
}

/// The width of a column that is to show the texts: that of the widest, no less than
/// `floor`, and no more than a width can be.
pub open spec fn width_for(ts: Seq<Seq<char>>, floor: nat) -> u16 {
    if widest(ts, floor) <= u16::MAX {
        widest(ts, floor) as u16
    } else {
        u16::MAX
    }
}

fn clamp_width(w: usize) -> (r: u16)
    ensures
        r == (if w <= u16::MAX {
            w as u16
        } else {
            u16::MAX
        }),
{
    if w <= u16::MAX as usize {
        w as u16
    } else {
        u16::MAX
    }
}

/// A column is never narrower than its header, and holds each of its texts unless that is
/// wider than a column can be.
pub proof fn columns_hold_their_header_and_texts(ts: Seq<Seq<char>>, floor: nat)
    requires
        floor <= u16::MAX,
    ensures
        width_for(ts, floor) >= floor,
        forall|i: int|
            0 <= i < ts.len() && text_width(#[trigger] ts[i]) <= u16::MAX ==> width_for(ts, floor)
                >= text_width(ts[i]),
{
    lemma_widest_floor(ts, floor);
}

/// The columns of the runner column's header.
pub const RUNNER_HEADER_W: usize = 6;

/// The columns of a repository column's header.
pub const REPO_HEADER_W: usize = 4;

/// The names in the rows of a table.
pub open spec fn runner_names(rows: Seq<RowView>) -> Seq<Seq<char>> {
    rows.map_values(|r: RowView| r.name)
}

/// The width of the runner column: that of the widest name, and no less than the
/// header's.
pub fn runner_col_width(rows: &[RunnerRow]) -> (r: u16)
    ensures
        r == width_for(runner_names(row_views(rows@)), RUNNER_HEADER_W as nat),
        r >= RUNNER_HEADER_W,
{
    let ghost names = runner_names(row_views(rows@));
    let mut w: usize = RUNNER_HEADER_W;
    let mut i: usize = 0;
    while i < rows.len()
        invariant
            i <= rows@.len(),
            names == runner_names(row_views(rows@)),
            w == widest(names.take(i as int), RUNNER_HEADER_W as nat),
        decreases rows@.len() - i,
    {
        proof {
            assert(names.take(i + 1).drop_last() =~= names.take(i as int));
            assert(names.take(i + 1).last() == rows@[i as int].name@);
        }
        let one = width_of(rows[i].name.as_str());
        if one > w {
            w = one;
        }
        i += 1;
    }
    assert(names.take(names.len() as int) =~= names);
    proof {
        lemma_widest_floor(names, RUNNER_HEADER_W as nat);
    }
    clamp_width(w)
}

/// The first entries of a list, as many as are shown.
pub open spec fn shown<T>(s: Seq<T>, cap: nat) -> Seq<T> {
    if s.len() <= cap {
        s
    } else {
        s.take(cap as int)
    }
}

/// The repositories of hosted jobs.
pub open spec fn hosted_repos(js: Seq<HostedView>) -> Seq<Seq<char>> {
    js.map_values(|j: HostedView| j.repo)
}

/// The repositories of deployments.
pub open spec fn deployment_repos(ds: Seq<DeploymentView>) -> Seq<Seq<char>> {
    ds.map_values(|d: DeploymentView| d.repo)
}

/// The width of the hosted jobs' repository column: that of the widest repository that is
/// shown, and no less than the header's.
pub fn repo_col_width(hosted: &[HostedJob]) -> (r: u16)
    ensures
        r == width_for(
            hosted_repos(shown(hosted_views(hosted@), HOSTED_CAP as nat)),
            REPO_HEADER_W as nat,
        ),
        r >= REPO_HEADER_W,
{
    let ghost repos = hosted_repos(shown(hosted_views(hosted@), HOSTED_CAP as nat));
    let mut w: usize = REPO_HEADER_W;
    let mut i: usize = 0;
    while i < hosted.len() && i < HOSTED_CAP
        invariant
            i <= repos.len(),
            repos == hosted_repos(shown(hosted_views(hosted@), HOSTED_CAP as nat)),
            w == widest(repos.take(i as int), REPO_HEADER_W as nat),
        decreases hosted@.len() - i,
    {
        proof {
            assert(repos.take(i + 1).drop_last() =~= repos.take(i as int));
            assert(repos.take(i + 1).last() == hosted@[i as int].repo@);
        }
        let one = width_of(hosted[i].repo.as_str());
        if one > w {
            w = one;
        }
        i += 1;
    }
    assert(repos.take(repos.len() as int) =~= repos);
    proof {
        lemma_widest_floor(repos, REPO_HEADER_W as nat);
    }
    clamp_width(w)
}

/// The width of the deployments' repository column: that of the widest repository that is
/// shown, and no less than the header's.
pub fn deploy_repo_col_width(deps: &[Deployment]) -> (r: u16)
    ensures
        r == width_for(
            deployment_repos(shown(deployment_views(deps@), VERCEL_CAP as nat)),
            REPO_HEADER_W as nat,
        ),
        r >= REPO_HEADER_W,
{
    let ghost repos = deployment_repos(shown(deployment_views(deps@), VERCEL_CAP as nat));
    let mut w: usize = REPO_HEADER_W;
    let mut i: usize = 0;
    while i < deps.len() && i < VERCEL_CAP
        invariant
            i <= repos.len(),
            repos == deployment_repos(shown(deployment_views(deps@), VERCEL_CAP as nat)),
            w == widest(repos.take(i as int), REPO_HEADER_W as nat),
        decreases deps@.len() - i,
    {
        proof {
            assert(repos.take(i + 1).drop_last() =~= repos.take(i as int));
            assert(repos.take(i + 1).last() == deps@[i as int].repo@);
        }
        let one = width_of(deps[i].repo.as_str());
        if one > w {
            w = one;
        }
        i += 1;
    }
    assert(repos.take(repos.len() as int) =~= repos);
    proof {
        lemma_widest_floor(repos, REPO_HEADER_W as nat);
    }
    clamp_width(w)
}

/// A rectangle on the screen.
#[derive(Clone, Copy, Debug, PartialEq, Eq, Structural)]
pub struct Area {
    pub x: u16,
    pub y: u16,
    pub width: u16,
    pub height: u16,
}

/// How much of a rectangle a part of it asks for: so many cells, at least so many, or a
/// share of what is left.
#[derive(Clone, Copy, Debug, PartialEq, Eq, Structural)]
pub enum Part {
    Length(u16),
    Min(u16),
    Fill(u16),
}

/// Whether parts lie side by side or one below the other.
#[derive(Clone, Copy, Debug, PartialEq, Eq, Structural)]
pub enum Axis {
    Columns,
    Rows,
}

/// Whether `ratatui::layout::Layout::split` can give these areas to the parts.
pub uninterp spec fn solved(
    area: Area,
    axis: Axis,
    parts: Seq<Part>,
    spacing: u16,
    areas: Seq<Area>,
) -> bool;

/// Whether one rectangle lies within another.
pub open spec fn lies_within(inner: Area, outer: Area) -> bool {
    &&& outer.x <= inner.x && inner.x + inner.width <= outer.x + outer.width
    &&& outer.y <= inner.y && inner.y + inner.height <= outer.y + outer.height
}

/// Whether `areas` is a division of `area` among the parts: one that the layout solver can
/// give, with one area per part, each within `area` and as wide or as high across the axis.
pub open spec fn is_division(
    area: Area,
    axis: Axis,
    parts: Seq<Part>,
    spacing: u16,
    areas: Seq<Area>,
) -> bool {
    &&& solved(area, axis, parts, spacing, areas)
    &&& areas.len() == parts.len()
    &&& forall|i: int| 0 <= i < areas.len() ==> lies_within(#[trigger] areas[i], area)
    &&& axis is Columns ==> forall|i: int|
        0 <= i < areas.len() ==> (#[trigger] areas[i]).y == area.y && areas[i].height == area.height
    &&& axis is Rows ==> forall|i: int|
        0 <= i < areas.len() ==> (#[trigger] areas[i]).x == area.x && areas[i].width == area.width
}

/// `ratatui::layout::Layout::split`: there is one rectangle per part, each lies within
/// `area`, which the solver takes as required, and each keeps the extent of `area` across
/// the axis. The extents along the axis come out of a numeric solver, which may settle a
/// tie either way: `solved` says which ones can come, and no more is claimed of them.
#[verifier::external_body]
fn split_area(area: Area, axis: Axis, parts: &Vec<Part>, spacing: u16) -> (r: Vec<Area>)
    ensures
        solved(area, axis, parts@, spacing, r@),
        is_division(area, axis, parts@, spacing, r@),
{
    let Area { x, y, width, height } = area;
    let direction = match axis {
        Axis::Columns => Direction::Horizontal,
        Axis::Rows => Direction::Vertical,
    };
    let constraints = parts.iter().map(|p| match p {
        Part::Length(n) => Constraint::Length(*n),
        Part::Min(n) => Constraint::Min(*n),
        Part::Fill(n) => Constraint::Fill(*n),
    });
    let layout = Layout::new(direction, constraints).spacing(spacing);
    let rects = layout.split(Rect { x, y, width, height });
    rects.iter().map(|c| Area { x: c.x, y: c.y, width: c.width, height: c.height }).collect()
}

/// The cells between columns.
pub const COL_SPACING: u16 = 1;

/// The cells of a sparkline.
pub const SPARK_WIDTH: u16 = 20;

/// The place of the runner column.
pub const RUNNER_IDX: usize = 0;

/// The place of the job column.
pub const JOB_IDX: usize = 5;

/// The place of the branch column.
pub const BRANCH_IDX: usize = 6;

/// What the columns of the runner table ask for.
pub open spec fn runner_columns(runner_w: u16) -> Seq<Part> {
    seq![
        Part::Length(runner_w),
        Part::Length(6),
        Part::Length(SPARK_WIDTH),
        Part::Length(16),
        Part::Length(SPARK_WIDTH),
        Part::Min(12),
        Part::Min(8),
        Part::Length(10),
    ]
}

/// What the columns of the runner table ask for: the names get what they need, jobs and
/// branches share what is left, and the others are fixed.
pub fn column_widths(runner_w: u16) -> (r: Vec<Part>)
    ensures
        r@ == runner_columns(runner_w),
{
    let r = vec![
        Part::Length(runner_w),
        Part::Length(6),
        Part::Length(SPARK_WIDTH),
        Part::Length(16),
        Part::Length(SPARK_WIDTH),
        Part::Min(12),
        Part::Min(8),
        Part::Length(10),
    ];
    assert(r@ =~= runner_columns(runner_w));
    r
}

/// The columns of the runner table within `area`.
pub fn column_layout(area: Area, runner_w: u16) -> (r: Vec<Area>)
    ensures
        is_division(area, Axis::Columns, runner_columns(runner_w), COL_SPACING, r@),
{
    let parts = column_widths(runner_w);
    split_area(area, Axis::Columns, &parts, COL_SPACING)
}

/// The width of the label column.
pub const HOSTED_LABEL_W: u16 = 14;

/// The width of the column with the time elapsed.
pub const HOSTED_ELAPSED_W: u16 = 12;

/// The width of the target column.
pub const VERCEL_TARGET_W: u16 = 10;

/// The repository column, where there is one.
pub open spec fn repo_part(repo_w: Option<u16>) -> Seq<Part> {
    match repo_w {
        Some(w) => seq![Part::Length(w)],
        None => Seq::empty(),
    }
}

/// What the columns of the hosted jobs ask for: job, repository, label, branch and time
/// elapsed. The repository may be left out.
pub open spec fn hosted_columns(repo_w: Option<u16>) -> Seq<Part> {
    seq![Part::Min(12)] + repo_part(repo_w) + seq![
        Part::Length(HOSTED_LABEL_W),
        Part::Min(8),
        Part::Length(HOSTED_ELAPSED_W),
    ]
}

/// What the columns of the hosted jobs ask for.
pub fn hosted_constraints(repo_w: Option<u16>) -> (r: Vec<Part>)
    ensures
        r@ == hosted_columns(repo_w),
{
    let mut c = vec![Part::Min(12)];
    if let Some(w) = repo_w {
        c.push(Part::Length(w));
    }
    c.push(Part::Length(HOSTED_LABEL_W));
    c.push(Part::Min(8));
    c.push(Part::Length(HOSTED_ELAPSED_W));
    assert(c@ =~= hosted_columns(repo_w));
    c
}

/// The columns of the hosted jobs within `area`.
pub fn hosted_col_layout(area: Area, repo_w: Option<u16>) -> (r: Vec<Area>)
    ensures
        is_division(area, Axis::Columns, hosted_columns(repo_w), COL_SPACING, r@),
{
    let parts = hosted_constraints(repo_w);
    split_area(area, Axis::Columns, &parts, COL_SPACING)
}

/// What the columns of the deployments ask for: project, repository, target, branch,
/// commit and time elapsed. The repository may be left out.
pub open spec fn vercel_columns(repo_w: Option<u16>) -> Seq<Part> {
    seq![Part::Min(12)] + repo_part(repo_w) + seq![
        Part::Length(VERCEL_TARGET_W),
        Part::Min(8),
        Part::Min(12),
        Part::Length(HOSTED_ELAPSED_W),
    ]
}

/// What the columns of the deployments ask for.
pub fn vercel_constraints(repo_w: Option<u16>) -> (r: Vec<Part>)
    ensures
        r@ == vercel_columns(repo_w),
{
    let mut c = vec![Part::Min(12)];
    if let Some(w) = repo_w {
        c.push(Part::Length(w));
    }
    c.push(Part::Length(VERCEL_TARGET_W));
    c.push(Part::Min(8));
    c.push(Part::Min(12));
    c.push(Part::Length(HOSTED_ELAPSED_W));
    assert(c@ =~= vercel_columns(repo_w));
    c
}

/// The columns of the deployments within `area`.
pub fn vercel_col_layout(area: Area, repo_w: Option<u16>) -> (r: Vec<Area>)
    ensures
        is_division(area, Axis::Columns, vercel_columns(repo_w), COL_SPACING, r@),
{
    let parts = vercel_constraints(repo_w);
    split_area(area, Axis::Columns, &parts, COL_SPACING)
}

/// What a runner's row shows, but for its CPU figure and its sparklines.
#[derive(Debug)]
pub struct RunnerCells {
    pub runner: String,
    pub mem: String,
    /// How the memory cell looks where it differs from the row.
    pub mem_style: Option<TextStyle>,
    pub job: String,
    pub branch: String,
    pub elapsed: String,
    /// Whether the sparklines are flat and uncoloured.
    pub idle: bool,
    pub style: TextStyle,
}

/// The content of a [`RunnerCells`].
pub struct CellsView {
    pub runner: Seq<char>,
    pub mem: Seq<char>,
    pub mem_style: Option<TextStyle>,
    pub job: Seq<char>,
    pub branch: Seq<char>,
    pub elapsed: Seq<char>,
    pub idle: bool,
    pub style: TextStyle,
}

impl vstd::prelude::View for RunnerCells {
    type V = CellsView;

    open spec fn view(&self) -> CellsView {
        CellsView {
            runner: self.runner@,
            mem: self.mem@,
            mem_style: self.mem_style,
            job: self.job@,
            branch: self.branch@,
            elapsed: self.elapsed@,
            idle: self.idle,
            style: self.style,
        }
    }
}

/// A branch, or a dash where there is none.
pub open spec fn branch_shown(branch: Seq<char>) -> Seq<char> {
    if branch.len() == 0 {
        "-"@
    } else {
        branch
    }
}

/// A runner's memory: without a limit the use alone.
pub open spec fn row_mem(row: RowView) -> Seq<char> {
    if row.mem_limit == 0 {
        mem_shown(row.mem_bytes)
    } else {
        mem_shown(row.mem_bytes) + "/"@ + mem_shown(row.mem_limit)
    }
}

/// A runner's job; a busy runner whose job is not known is just busy.
pub open spec fn row_job(row: RowView) -> Seq<char> {
    match row.job {
        Some(j) => j.workflow + " \u{203a} "@ + j.job,
        None => if row.load is Busy {
            "busy"@
        } else {
            "\u{2014} idle"@
        },
    }
}

/// The branch of a runner's job.
pub open spec fn row_branch(row: RowView) -> Seq<char> {
    match row.job {
        Some(j) => branch_shown(j.branch),
        None => "-"@,
    }
}

/// How long a runner's job has been running.
pub open spec fn row_elapsed(row: RowView, now: Timestamp) -> Seq<char> {
    match row.job {
        Some(j) => elapsed_shown(seconds_between(j.started_at, now) as u64),
        None => "-"@,
    }
}

/// What a runner's row shows in columns of these widths. A name is cut at its front, so
/// that its number stays.
pub open spec fn row_cells(
    row: RowView,
    now: Timestamp,
    p: Palette,
    runner_w: nat,
    job_w: nat,
    branch_w: nat,
) -> CellsView {
    CellsView {
        runner: cut_front(row.name, runner_w),
        mem: row_mem(row),
        mem_style: mem_style_of(row.mem_level, p),
        job: cut(row_job(row), job_w),
        branch: cut(row_branch(row), branch_w),
        elapsed: row_elapsed(row, now),
        idle: row.load is Idle,
        style: style_of(row.load, p),
    }
}

fn branch_text(branch: &str) -> (r: String)
    ensures
        r@ == branch_shown(branch@),
{
    if branch.is_empty() {
        "-".to_owned()
    } else {
        branch.to_owned()
    }
}

/// What a runner's row shows in columns of these widths.
pub fn table_row(
    row: &RunnerRow,
    now: Timestamp,
    p: &Palette,
    runner_w: usize,
    job_w: usize,
    branch_w: usize,
) -> (r: RunnerCells)
    ensures
        r@ == row_cells(row@, now, *p, runner_w as nat, job_w as nat, branch_w as nat),
{
    let mem = if row.mem_limit == 0 {
        fmt_mem(row.mem_bytes)
    } else {
        let limit = fmt_mem(row.mem_limit);
        fmt_mem(row.mem_bytes).concat("/").concat(limit.as_str())
    };
    let (busy, idle) = match row.load {
        Load::Idle => (false, true),
        Load::Busy => (true, false),
        Load::NearCap => (false, false),
    };
    let (job, branch, elapsed) = match &row.job {
        Some(j) => (
            j.workflow.clone().concat(" \u{203a} ").concat(j.job.as_str()),
            branch_text(j.branch.as_str()),
            fmt_elapsed(elapsed_secs(j.started_at, now)),
        ),
        None => (
            if busy {
                "busy".to_owned()
            } else {
                "\u{2014} idle".to_owned()
            },
            "-".to_owned(),
            "-".to_owned(),
        ),
    };
    RunnerCells {
        runner: truncate_ellipsis_front(row.name.as_str(), runner_w),
        mem,
        mem_style: mem_style(row.mem_level, p),
        job: truncate_ellipsis(job.as_str(), job_w),
        branch: truncate_ellipsis(branch.as_str(), branch_w),
        elapsed,
        idle,
        style: load_style(row.load, p),
    }
}

/// The contents of the rows of a runner table.
pub open spec fn cells_views(cs: Seq<RunnerCells>) -> Seq<CellsView> {
    cs.map_values(|c: RunnerCells| c@)
}

/// The header of the runner table.
pub open spec fn runner_header() -> Seq<Seq<char>> {
    seq![
        "runner"@,
        "cpu"@,
        "~cpu"@,
        "mem"@,
        "~mem"@,
        "workflow \u{203a} job"@,
        "branch"@,
        "elapsed"@,
    ]
}

/// The header of the runner table.
pub fn runner_table_header() -> (r: Vec<String>)
    ensures
        texts(r@) == runner_header(),
{
    let r = vec![
        "runner".to_owned(),
        "cpu".to_owned(),
        "~cpu".to_owned(),
        "mem".to_owned(),
        "~mem".to_owned(),
        "workflow \u{203a} job".to_owned(),
        "branch".to_owned(),
        "elapsed".to_owned(),
    ];
    assert(texts(r@) =~= runner_header());
    r
}

/// The rows of the runner table in columns `cols`.
pub open spec fn runner_rows(
    rows: Seq<RowView>,
    now: Timestamp,
    p: Palette,
    cols: Seq<Area>,
) -> Seq<CellsView> {
    rows.map_values(
        |row: RowView|
            row_cells(
                row,
                now,
                p,
                cols[RUNNER_IDX as int].width as nat,
                cols[JOB_IDX as int].width as nat,
                cols[BRANCH_IDX as int].width as nat,
            ),
    )
}

/// The rows of the runner table in columns `cols`.
pub fn runner_table(rows: &[RunnerRow], now: Timestamp, p: &Palette, cols: &Vec<Area>) -> (r: Vec<
    RunnerCells,
>)
    requires
        cols@.len() == 8,
    ensures
        cells_views(r@) == runner_rows(row_views(rows@), now, *p, cols@),
{
    let runner_w: usize = cols[RUNNER_IDX].width as usize;
    let job_w: usize = cols[JOB_IDX].width as usize;
    let branch_w: usize = cols[BRANCH_IDX].width as usize;
    let mut out: Vec<RunnerCells> = Vec::new();
    let mut i: usize = 0;
    while i < rows.len()
        invariant
            i <= rows@.len(),
            out@.len() == i,
            forall|k: int|
                0 <= k < i ==> (#[trigger] out@[k])@ == row_cells(
                    rows@[k]@,
                    now,
                    *p,
                    runner_w as nat,
                    job_w as nat,
                    branch_w as nat,
                ),
        decreases rows@.len() - i,
    {
        out.push(table_row(&rows[i], now, p, runner_w, job_w, branch_w));
        i += 1;
    }
    out
}

/// What the runner section says while there is no runner to show: runners that match but
/// have not been read are waited for; containers of which none matches point to the
/// prefix.
pub open spec fn empty_message(
    matched_seen: usize,
    unmatched_seen: usize,
    prefix: Seq<char>,
) -> Seq<char> {
    if matched_seen > 0 {
        "waiting for runner stats\u{2026}"@
    } else if unmatched_seen > 0 {
        decimal(unmatched_seen as nat) + " containers running, none match prefix '"@ + prefix
            + "'"@
    } else {
        "waiting for runners\u{2026}"@
    }
}

/// What the runner section says while there is no runner to show.
pub fn empty_state_message(matched_seen: usize, unmatched_seen: usize, prefix: &str) -> (r: String)
    ensures
        r@ == empty_message(matched_seen, unmatched_seen, prefix@),
{
    if matched_seen > 0 {
        "waiting for runner stats\u{2026}".to_owned()
    } else if unmatched_seen > 0 {
        decimal_text(unmatched_seen as u64).concat(
            " containers running, none match prefix '",
        ).concat(prefix).concat("'")
    } else {
        "waiting for runners\u{2026}".to_owned()
    }
}

/// What the lines of an empty section ask for: one for the message, with the same space
/// above and below it.
pub open spec fn message_parts() -> Seq<Part> {
    seq![Part::Fill(1), Part::Length(1), Part::Fill(1)]
}

/// The line in the middle of `area` for the message of an empty section.
pub fn empty_state_area(area: Area) -> (r: Area)
    ensures
        exists|areas: Seq<Area>| #[trigger]
            is_division(area, Axis::Rows, message_parts(), 0, areas) && r == areas[1],
        lies_within(r, area),
{
    let parts = vec![Part::Fill(1), Part::Length(1), Part::Fill(1)];
    assert(parts@ =~= message_parts());
    let areas = split_area(area, Axis::Rows, &parts, 0);
    assert(is_division(area, Axis::Rows, message_parts(), 0, areas@));
    areas[1]
}

/// A row of a list: its cells and their colour.
#[derive(Debug)]
pub struct ListRow {
    pub cells: Vec<String>,
    pub fg: Color,
}

/// The content of a [`ListRow`].
pub struct ListRowView {
    pub cells: Seq<Seq<char>>,
    pub fg: Color,
}

impl vstd::prelude::View for ListRow {
    type V = ListRowView;

    open spec fn view(&self) -> ListRowView {
        ListRowView { cells: texts(self.cells@), fg: self.fg }
    }
}

/// The contents of the rows of a list.
pub open spec fn list_views(rows: Seq<ListRow>) -> Seq<ListRowView> {
    rows.map_values(|r: ListRow| r@)
}

/// A list with its header.
#[derive(Debug)]
pub struct ListTable {
    pub header: Vec<String>,
    pub rows: Vec<ListRow>,
}

/// The repository cell, where there is a column for it.
pub open spec fn repo_cell(repo: Seq<char>, repo_w: Option<usize>) -> Seq<Seq<char>> {
    match repo_w {
        Some(w) => seq![cut_front(repo, w as nat)],
        None => Seq::empty(),
    }
}

/// The time of an entry: how long it has been running, or how long it has waited.
pub open spec fn age_shown(queued: bool, since: Timestamp, now: Timestamp) -> Seq<char> {
    let secs = seconds_between(since, now) as u64;
    if queued {
        "queued "@ + wait_shown(secs)
    } else {
        elapsed_shown(secs)
    }
}

fn age_text(queued: bool, since: Timestamp, now: Timestamp) -> (r: String)
    ensures
        r@ == age_shown(queued, since, now),
{
    let secs = elapsed_secs(since, now);
    if queued {
        let wait = fmt_wait(secs);
        "queued ".to_owned().concat(wait.as_str())
    } else {
        fmt_elapsed(secs)
    }
}

/// The mark of an entry: a disc while it runs, a circle while it waits.
pub open spec fn mark(queued: bool) -> Seq<char> {
    if queued {
        "\u{25cb} "@
    } else {
        "\u{25cf} "@
    }
}

fn mark_text(queued: bool) -> (r: String)
    ensures
        r@ == mark(queued),
{
    if queued {
        "\u{25cb} ".to_owned()
    } else {
        "\u{25cf} ".to_owned()
    }
}

/// The row of a hosted job.
pub open spec fn hosted_cells(
    j: HostedView,
    now: Timestamp,
    p: Palette,
    job_w: nat,
    branch_w: nat,
    repo_w: Option<usize>,
) -> ListRowView {
    let queued = j.status is Queued;
    ListRowView {
        cells: seq![cut(mark(queued) + j.workflow + " \u{203a} "@ + j.job, job_w)] + repo_cell(
            j.repo,
            repo_w,
        ) + seq![
            cut(j.label, HOSTED_LABEL_W as nat),
            cut(branch_shown(j.branch), branch_w),
            cut(age_shown(queued, j.since, now), HOSTED_ELAPSED_W as nat),
        ],
        fg: if queued {
            p.warn
        } else {
            p.busy
        },
    }
}

/// The row of a hosted job.
pub fn hosted_row(
    j: &HostedJob,
    now: Timestamp,
    p: &Palette,
    job_w: usize,
    branch_w: usize,
    repo_w: Option<usize>,
) -> (r: ListRow)
    ensures
        r@ == hosted_cells(j@, now, *p, job_w as nat, branch_w as nat, repo_w),
{
    let (queued, fg) = match j.status {
        HostedStatus::InProgress => (false, p.busy),
        HostedStatus::Queued => (true, p.warn),
    };
    let title = mark_text(queued).concat(j.workflow.as_str()).concat(" \u{203a} ").concat(
        j.job.as_str(),
    );
    let branch = branch_text(j.branch.as_str());
    let elapsed = age_text(queued, j.since, now);
    let mut cells: Vec<String> = Vec::new();
    cells.push(truncate_ellipsis(title.as_str(), job_w));
    if let Some(w) = repo_w {
        cells.push(truncate_ellipsis_front(j.repo.as_str(), w));
    }
    cells.push(truncate_ellipsis(j.label.as_str(), HOSTED_LABEL_W as usize));
    cells.push(truncate_ellipsis(branch.as_str(), branch_w));
    cells.push(truncate_ellipsis(elapsed.as_str(), HOSTED_ELAPSED_W as usize));
    let r = ListRow { cells, fg };
    assert(r@.cells =~= hosted_cells(
        j@,
        now,
        *p,
        job_w as nat,
        branch_w as nat,
        repo_w,
    ).cells);
    r
}

/// The row that stands for the entries that are not shown.
pub open spec fn rest_row(n: nat, cap: nat, p: Palette) -> Seq<ListRowView> {
    if n > cap {
        seq![
            ListRowView {
                cells: seq!["+"@ + decimal((n - cap) as nat) + " more"@],
                fg: p.idle,
            },
        ]
    } else {
        Seq::empty()
    }
}

fn add_rest_row(rows: &mut Vec<ListRow>, n: usize, cap: usize, p: &Palette)
    ensures
        list_views(final(rows)@) == list_views(old(rows)@) + rest_row(n as nat, cap as nat, *p),
{
    let ghost before = list_views(rows@);
    if n > cap {
        let more = decimal_text((n - cap) as u64);
        let mut cells: Vec<String> = Vec::new();
        cells.push("+".to_owned().concat(more.as_str()).concat(" more"));
        let row = ListRow { cells, fg: p.idle };
        proof {
            assert(row@.cells =~= rest_row(n as nat, cap as nat, *p)[0].cells);
        }
        rows.push(row);
    }
    assert(list_views(rows@) =~= before + rest_row(n as nat, cap as nat, *p));
}

/// The repository header, where there is a column for it.
pub open spec fn repo_header(multi_repo: bool) -> Seq<Seq<char>> {
    if multi_repo {
        seq!["repo"@]
    } else {
        Seq::empty()
    }
}

/// The width of the repository column among `cols`, where there is one.
pub open spec fn repo_width(cols: Seq<Area>, multi_repo: bool) -> Option<usize> {
    if multi_repo {
        Some(cols[1].width as usize)
    } else {
        None
    }
}

/// The header of the hosted jobs.
pub open spec fn hosted_header(job_w: nat, multi_repo: bool) -> Seq<Seq<char>> {
    seq![cut("workflow \u{203a} job"@, job_w)] + repo_header(multi_repo) + seq![
        "label"@,
        "branch"@,
        "elapsed"@,
    ]
}

/// The rows of the hosted jobs in columns `cols`: those that are shown, and one for the
/// rest.
pub open spec fn hosted_rows(
    hosted: Seq<HostedView>,
    now: Timestamp,
    p: Palette,
    multi_repo: bool,
    cols: Seq<Area>,
) -> Seq<ListRowView> {
    shown(hosted, HOSTED_CAP as nat).map_values(
        |j: HostedView|
            hosted_cells(
                j,
                now,
                p,
                cols[0].width as nat,
                cols[cols.len() - 2].width as nat,
                repo_width(cols, multi_repo),
            ),
    ) + rest_row(hosted.len(), HOSTED_CAP as nat, p)
}

/// Whether a list shows the hosted jobs in columns `cols`.
pub open spec fn shows_hosted(
    t: ListTable,
    hosted: Seq<HostedView>,
    now: Timestamp,
    p: Palette,
    multi_repo: bool,
    cols: Seq<Area>,
) -> bool {
    &&& texts(t.header@) == hosted_header(cols[0].width as nat, multi_repo)
    &&& list_views(t.rows@) == hosted_rows(hosted, now, p, multi_repo, cols)
}

/// The list of hosted jobs in columns `cols`, with a repository column where `multi_repo`
/// asks for one.
pub fn hosted_table(
    hosted: &[HostedJob],
    now: Timestamp,
    p: &Palette,
    multi_repo: bool,
    cols: &Vec<Area>,
) -> (r: ListTable)
    requires
        cols@.len() == (if multi_repo {
            5int
        } else {
            4int
        }),
    ensures
        shows_hosted(r, hosted_views(hosted@), now, *p, multi_repo, cols@),
{
    let job_w: usize = cols[0].width as usize;
    let branch_w: usize = cols[cols.len() - 2].width as usize;
    let repo_w: Option<usize> = if multi_repo {
        Some(cols[1].width as usize)
    } else {
        None
    };
    let mut header: Vec<String> = Vec::new();
    header.push(truncate_ellipsis("workflow \u{203a} job", job_w));
    if multi_repo {
        header.push("repo".to_owned());
    }
    header.push("label".to_owned());
    header.push("branch".to_owned());
    header.push("elapsed".to_owned());
    assert(texts(header@) =~= hosted_header(cols@[0].width as nat, multi_repo));
    let ghost first = shown(hosted_views(hosted@), HOSTED_CAP as nat);
    let mut rows: Vec<ListRow> = Vec::new();
    let mut i: usize = 0;
    while i < hosted.len() && i < HOSTED_CAP
        invariant
            i <= first.len(),
            first == shown(hosted_views(hosted@), HOSTED_CAP as nat),
            rows@.len() == i,
            forall|k: int|
                0 <= k < i ==> (#[trigger] rows@[k])@ == hosted_cells(
                    first[k],
                    now,
                    *p,
                    job_w as nat,
                    branch_w as nat,
                    repo_w,
                ),
        decreases hosted@.len() - i,
    {
        rows.push(hosted_row(&hosted[i], now, p, job_w, branch_w, repo_w));
        i += 1;
    }
    proof {
        assert(list_views(rows@) =~= first.map_values(
            |j: HostedView|
                hosted_cells(
                    j,
                    now,
                    *p,
                    cols@[0].width as nat,
                    cols@[cols@.len() - 2].width as nat,
                    repo_width(cols@, multi_repo),
                ),
        ));
    }
    add_rest_row(&mut rows, hosted.len(), HOSTED_CAP, p);
    ListTable { header, rows }
}

/// The row of a deployment.
pub open spec fn deployment_cells(
    d: DeploymentView,
    now: Timestamp,
    p: Palette,
    project_w: nat,
    branch_w: nat,
    commit_w: nat,
    repo_w: Option<usize>,
) -> ListRowView {
    let queued = d.status is Queued;
    ListRowView {
        cells: seq![cut(mark(queued) + d.project, project_w)] + repo_cell(d.repo, repo_w) + seq![
            cut(d.target, VERCEL_TARGET_W as nat),
            cut(branch_shown(d.branch), branch_w),
            cut(d.commit_summary, commit_w),
            cut(age_shown(queued, d.started_at, now), HOSTED_ELAPSED_W as nat),
        ],
        fg: if queued {
            p.warn
        } else {
            p.busy
        },
    }
}

/// The row of a deployment.
pub fn vercel_row(
    d: &Deployment,
    now: Timestamp,
    p: &Palette,
    project_w: usize,
    branch_w: usize,
    commit_w: usize,
    repo_w: Option<usize>,
) -> (r: ListRow)
    ensures
        r@ == deployment_cells(
            d@,
            now,
            *p,
            project_w as nat,
            branch_w as nat,
            commit_w as nat,
            repo_w,
        ),
{
    let (queued, fg) = match d.status {
        DeployStatus::Building => (false, p.busy),
        DeployStatus::Queued => (true, p.warn),
    };
    let project = mark_text(queued).concat(d.project.as_str());
    let branch = branch_text(d.branch.as_str());
    let elapsed = age_text(queued, d.started_at, now);
    let mut cells: Vec<String> = Vec::new();
    cells.push(truncate_ellipsis(project.as_str(), project_w));
    if let Some(w) = repo_w {
        cells.push(truncate_ellipsis_front(d.repo.as_str(), w));
    }
    cells.push(truncate_ellipsis(d.target.as_str(), VERCEL_TARGET_W as usize));
    cells.push(truncate_ellipsis(branch.as_str(), branch_w));
    cells.push(truncate_ellipsis(d.commit_summary.as_str(), commit_w));
    cells.push(truncate_ellipsis(elapsed.as_str(), HOSTED_ELAPSED_W as usize));
    let r = ListRow { cells, fg };
    assert(r@.cells =~= deployment_cells(
        d@,
        now,
        *p,
        project_w as nat,
        branch_w as nat,
        commit_w as nat,
        repo_w,
    ).cells);
    r
}

/// The header of the deployments.
pub open spec fn deployment_header(multi_repo: bool) -> Seq<Seq<char>> {
    seq!["project"@] + repo_header(multi_repo) + seq![
        "target"@,
        "branch"@,
        "commit"@,
        "elapsed"@,
    ]
}

/// The rows of the deployments in columns `cols`: those that are shown, and one for the
/// rest.
pub open spec fn deployment_rows(
    deployments: Seq<DeploymentView>,
    now: Timestamp,
    p: Palette,
    multi_repo: bool,
    cols: Seq<Area>,
) -> Seq<ListRowView> {
    shown(deployments, VERCEL_CAP as nat).map_values(
        |d: DeploymentView|
            deployment_cells(
                d,
                now,
                p,
                cols[0].width as nat,
                cols[cols.len() - 3].width as nat,
                cols[cols.len() - 2].width as nat,
                repo_width(cols, multi_repo),
            ),
    ) + rest_row(deployments.len(), VERCEL_CAP as nat, p)
}

/// The list of deployments in columns `cols`, with a repository column where `multi_repo`
/// asks for one.
pub fn vercel_table(
    deployments: &[Deployment],
    now: Timestamp,
    p: &Palette,
    multi_repo: bool,
    cols: &Vec<Area>,
) -> (r: ListTable)
    requires
        cols@.len() == (if multi_repo {
            6int
        } else {
            5int
        }),
    ensures
        texts(r.header@) == deployment_header(multi_repo),
        list_views(r.rows@) == deployment_rows(
            deployment_views(deployments@),
            now,
            *p,
            multi_repo,
            cols@,
        ),
{
    let project_w: usize = cols[0].width as usize;
    let commit_w: usize = cols[cols.len() - 2].width as usize;
    let branch_w: usize = cols[cols.len() - 3].width as usize;
    let repo_w: Option<usize> = if multi_repo {
        Some(cols[1].width as usize)
    } else {
        None
    };
    let mut header: Vec<String> = Vec::new();
    header.push("project".to_owned());
    if multi_repo {
        header.push("repo".to_owned());
    }
    header.push("target".to_owned());
    header.push("branch".to_owned());
    header.push("commit".to_owned());
    header.push("elapsed".to_owned());
    assert(texts(header@) =~= deployment_header(multi_repo));
    let ghost first = shown(deployment_views(deployments@), VERCEL_CAP as nat);
    let mut rows: Vec<ListRow> = Vec::new();
    let mut i: usize = 0;
    while i < deployments.len() && i < VERCEL_CAP
        invariant
            i <= first.len(),
            first == shown(deployment_views(deployments@), VERCEL_CAP as nat),
            rows@.len() == i,
            forall|k: int|
                0 <= k < i ==> (#[trigger] rows@[k])@ == deployment_cells(
                    first[k],
                    now,
                    *p,
                    project_w as nat,
                    branch_w as nat,
                    commit_w as nat,
                    repo_w,
                ),
        decreases deployments@.len() - i,
    {
        rows.push(vercel_row(&deployments[i], now, p, project_w, branch_w, commit_w, repo_w));
        i += 1;
    }
    proof {
        assert(list_views(rows@) =~= first.map_values(
            |d: DeploymentView|
                deployment_cells(
                    d,
                    now,
                    *p,
                    cols@[0].width as nat,
                    cols@[cols@.len() - 3].width as nat,
                    cols@[cols@.len() - 2].width as nat,
                    repo_width(cols@, multi_repo),
                ),
        ));
    }
    add_rest_row(&mut rows, deployments.len(), VERCEL_CAP, p);
    ListTable { header, rows }
}

/// A list takes as many lines as its header and its rows.
pub proof fn lists_fill_their_height(
    hosted: Seq<HostedView>,
    deployments: Seq<DeploymentView>,
    now: Timestamp,
    p: Palette,
    multi_repo: bool,
    cols: Seq<Area>,
)
    ensures
        hosted.len() > 0 ==> list_height(hosted.len(), HOSTED_CAP as nat) == 1 + hosted_rows(
            hosted,
            now,
            p,
            multi_repo,
            cols,
        ).len(),
        deployments.len() > 0 ==> list_height(deployments.len(), VERCEL_CAP as nat) == 1
            + deployment_rows(deployments, now, p, multi_repo, cols).len(),
{
}

/// The mark that goes with a level of memory.
pub open spec fn level_mark(level: MemLevel) -> Seq<char> {
    match level {
        MemLevel::Normal => ""@,
        MemLevel::Warn => " \u{26a0} warn"@,
        MemLevel::Critical => " \u{26a0} NEAR CAP"@,
    }
}

/// The colour that goes with a level of memory.
pub open spec fn level_color(level: MemLevel, p: Palette) -> Color {
    match level {
        MemLevel::Normal => p.gauge,
        MemLevel::Warn => p.warn,
        MemLevel::Critical => p.near_cap,
    }
}

/// The memory cap in whole gibibytes, rounded, and halfway cases up.
pub open spec fn whole_gib(bytes: u64) -> nat {
    (nearest(bytes as nat) + GIB / 2) as nat / GIB as nat
}

/// What the memory gauge says: the use in gibibytes, the cap, and a mark where the cap is
/// near.
pub open spec fn gauge_label(total: u64, cap: u64, level: MemLevel) -> Seq<char> {
    tenths_shown(tenths(total as nat, GIB as nat)) + " / "@ + decimal(whole_gib(cap)) + " GiB"@
        + level_mark(level)
}

/// The memory gauge: its text, its colour, and the two amounts that it compares.
#[derive(Debug)]
pub struct GaugeText {
    pub label: String,
    pub fill: Color,
    pub total: u64,
    pub cap: u64,
}

/// The memory gauge for the rows of the table.
pub fn gauge_text(
    rows: &[RunnerRow],
    slice_cap_bytes: u64,
    warn_pct: u64,
    crit_pct: u64,
    p: &Palette,
) -> (r: GaugeText)
    requires
        total_bytes(row_views(rows@)) <= u64::MAX,
    ensures
        r.total == total_bytes(row_views(rows@)),
        r.cap == slice_cap_bytes,
        r.fill == level_color(level_of(r.total, slice_cap_bytes, warn_pct, crit_pct), *p),
        r.label@ == gauge_label(
            r.total,
            slice_cap_bytes,
            level_of(r.total, slice_cap_bytes, warn_pct, crit_pct),
        ),
{
    let total = slice_total_bytes(rows);
    let cap_gib: u64 = ((nearest_double(slice_cap_bytes) + (GIB / 2) as u128) / GIB as u128) as u64;
    let (fill, mark) = match mem_level(total, slice_cap_bytes, warn_pct, crit_pct) {
        MemLevel::Normal => (p.gauge, ""),
        MemLevel::Warn => (p.warn, " \u{26a0} warn"),
        MemLevel::Critical => (p.near_cap, " \u{26a0} NEAR CAP"),
    };
    let cap_text = decimal_text(cap_gib);
    let label = tenths_text(tenths_of(total, GIB)).concat(" / ").concat(cap_text.as_str()).concat(
        " GiB",
    ).concat(mark);
    GaugeText { label, fill, total, cap: slice_cap_bytes }
}

/// What the screen shows at one moment.
pub struct View<'a> {
    pub rows: &'a [RunnerRow],
    pub slice_cap_bytes: u64,
    pub now: Timestamp,
    pub status: Option<String>,
    pub palette: &'a Palette,
    /// The prefixes of container names that count as runners.
    pub prefix: &'a str,
    pub matched_seen: usize,
    pub unmatched_seen: usize,
    pub warn_pct: u64,
    pub crit_pct: u64,
    pub hosted: &'a [HostedJob],
    /// Whether more than one repository is polled.
    pub multi_repo: bool,
    pub deployments: &'a [Deployment],
}

/// Where the sections of the screen go. A section with nothing to show has no place.
#[derive(Clone, Copy, Debug, PartialEq, Eq, Structural)]
pub struct Sections {
    pub title: Area,
    pub banner: Option<Area>,
    pub runners: Area,
    pub hosted: Option<Area>,
    pub vercel: Option<Area>,
    pub memory: Area,
}

/// A part that is there or not.
pub open spec fn part_if(there: bool, part: Part) -> Seq<Part> {
    if there {
        seq![part]
    } else {
        Seq::empty()
    }
}

/// Whether every section that has a place lies within `area`.
pub open spec fn sections_within(s: Sections, area: Area) -> bool {
    &&& lies_within(s.title, area) && lies_within(s.runners, area) && lies_within(s.memory, area)
    &&& s.banner matches Some(a) ==> lies_within(a, area)
    &&& s.hosted matches Some(a) ==> lies_within(a, area)
    &&& s.vercel matches Some(a) ==> lies_within(a, area)
}

/// What the sections ask for: a line each for the title and the banner, a frame and the
/// lines of each list, and what is left for the runners.
pub open spec fn section_parts(has_banner: bool, hosted_h: u16, vercel_h: u16) -> Seq<Part> {
    seq![Part::Length(1)] + part_if(has_banner, Part::Length(1)) + seq![Part::Min(3)] + part_if(
        hosted_h > 0,
        Part::Length((hosted_h + 2) as u16),
    ) + part_if(vercel_h > 0, Part::Length((vercel_h + 2) as u16)) + seq![Part::Length(3)]
}

/// What the sections ask for.
pub fn frame_parts(has_banner: bool, hosted_h: u16, vercel_h: u16) -> (r: Vec<Part>)
    requires
        hosted_h <= u16::MAX - 2,
        vercel_h <= u16::MAX - 2,
    ensures
        r@ == section_parts(has_banner, hosted_h, vercel_h),
{
    let mut parts = vec![Part::Length(1)];
    if has_banner {
        parts.push(Part::Length(1));
    }
    parts.push(Part::Min(3));
    if hosted_h > 0 {
        parts.push(Part::Length(hosted_h + 2));
    }
    if vercel_h > 0 {
        parts.push(Part::Length(vercel_h + 2));
    }
    parts.push(Part::Length(3));
    assert(parts@ =~= section_parts(has_banner, hosted_h, vercel_h));
    parts
}

/// One if there is something, and nothing otherwise.
pub open spec fn count(there: bool) -> int {
    if there {
        1
    } else {
        0
    }
}

/// The areas given to the sections from top to bottom: title, banner, runners, hosted jobs,
/// deployments and memory, but for those that are not there.
pub open spec fn sections_of(
    areas: Seq<Area>,
    has_banner: bool,
    has_hosted: bool,
    has_vercel: bool,
) -> Sections {
    let body = 1 + count(has_banner);
    Sections {
        title: areas[0],
        banner: if has_banner {
            Some(areas[1])
        } else {
            None
        },
        runners: areas[body],
        hosted: if has_hosted {
            Some(areas[body + 1])
        } else {
            None
        },
        vercel: if has_vercel {
            Some(areas[body + 1 + count(has_hosted)])
        } else {
            None
        },
        memory: areas.last(),
    }
}

/// Gives the areas to the sections from top to bottom.
pub fn assign_sections(
    areas: &Vec<Area>,
    has_banner: bool,
    has_hosted: bool,
    has_vercel: bool,
) -> (r: Sections)
    requires
        areas@.len() == 3 + count(has_banner) + count(has_hosted) + count(has_vercel),
    ensures
        r == sections_of(areas@, has_banner, has_hosted, has_vercel),
{
    let title = areas[0];
    let mut i: usize = 1;
    let mut banner: Option<Area> = None;
    if has_banner {
        banner = Some(areas[i]);
        i += 1;
    }
    let runners = areas[i];
    i += 1;
    let mut hosted: Option<Area> = None;
    if has_hosted {
        hosted = Some(areas[i]);
        i += 1;
    }
    let mut vercel: Option<Area> = None;
    if has_vercel {
        vercel = Some(areas[i]);
        i += 1;
    }
    let memory = areas[i];
    Sections { title, banner, runners, hosted, vercel, memory }
}

/// Where the sections of the screen go within `area`: the banner, the hosted jobs and the
/// deployments are there exactly when there is something to show in them.
pub fn frame_sections(area: Area, view: &View) -> (r: Sections)
    ensures
        r.banner is Some <==> view.status is Some,
        r.hosted is Some <==> view.hosted@.len() > 0,
        r.vercel is Some <==> view.deployments@.len() > 0,
        sections_within(r, area),
        exists|areas: Seq<Area>| #[trigger]
            is_division(
                area,
                Axis::Rows,
                section_parts(
                    view.status is Some,
                    list_height(view.hosted@.len(), HOSTED_CAP as nat) as u16,
                    list_height(view.deployments@.len(), VERCEL_CAP as nat) as u16,
                ),
                0,
                areas,
            ) && r == sections_of(
                areas,
                view.status is Some,
                view.hosted@.len() > 0,
                view.deployments@.len() > 0,
            ),
{
    let hosted_h = hosted_height(view.hosted.len());
    let vercel_h = vercel_height(view.deployments.len());
    let has_banner = view.status.is_some();
    let parts = frame_parts(has_banner, hosted_h, vercel_h);
    let areas = split_area(area, Axis::Rows, &parts, 0);
    let r = assign_sections(&areas, has_banner, hosted_h > 0, vercel_h > 0);
    proof {
        let hosted_lines = list_height(view.hosted@.len(), HOSTED_CAP as nat) as u16;
        let vercel_lines = list_height(view.deployments@.len(), VERCEL_CAP as nat) as u16;
        assert(hosted_h == hosted_lines && vercel_h == vercel_lines);
        assert(is_division(
            area,
            Axis::Rows,
            section_parts(view.status is Some, hosted_lines, vercel_lines),
            0,
            areas@,
        ));
        assert(r == sections_of(
            areas@,
            view.status is Some,
            view.hosted@.len() > 0,
            view.deployments@.len() > 0,
        ));
    }
    r
}

/// The runner table: its header, what its columns ask for, and its rows.
#[derive(Debug)]
pub struct RunnerTable {
    pub header: Vec<String>,
    pub columns: Vec<Part>,
    pub rows: Vec<RunnerCells>,
}

/// The runner table within `area`: its columns are divided by the widest name, and its
/// cells are cut to the columns' widths.
pub fn runner_section(area: Area, view: &View) -> (r: RunnerTable)
    ensures
        texts(r.header@) == runner_header(),
        r.columns@ == runner_columns(
            width_for(runner_names(row_views(view.rows@)), RUNNER_HEADER_W as nat),
        ),
        exists|cols: Seq<Area>| #[trigger]
            is_division(area, Axis::Columns, r.columns@, COL_SPACING, cols) && cells_views(r.rows@)
                == runner_rows(row_views(view.rows@), view.now, *view.palette, cols),
{
    let runner_w = runner_col_width(view.rows);
    let cols = column_layout(area, runner_w);
    let rows = runner_table(view.rows, view.now, view.palette, &cols);
    let columns = column_widths(runner_w);
    assert(is_division(area, Axis::Columns, columns@, COL_SPACING, cols@));
    RunnerTable { header: runner_table_header(), columns, rows }
}

/// The hosted jobs within `area`, and what their columns ask for: the repository has a
/// column where more than one is polled.
pub fn hosted_section(area: Area, view: &View) -> (r: (Vec<Part>, ListTable))
    ensures
        r.0@ == hosted_columns(
            if view.multi_repo {
                Some(
                    width_for(
                        hosted_repos(shown(hosted_views(view.hosted@), HOSTED_CAP as nat)),
                        REPO_HEADER_W as nat,
                    ),
                )
            } else {
                None
            },
        ),
        exists|cols: Seq<Area>| #[trigger]
            is_division(area, Axis::Columns, r.0@, COL_SPACING, cols) && shows_hosted(
                r.1,
                hosted_views(view.hosted@),
                view.now,
                *view.palette,
                view.multi_repo,
                cols,
            ),
{
    let repo_w: Option<u16> = if view.multi_repo {
        Some(repo_col_width(view.hosted))
    } else {
        None
    };
    let cols = hosted_col_layout(area, repo_w);
    let table = hosted_table(view.hosted, view.now, view.palette, view.multi_repo, &cols);
    let r = (hosted_constraints(repo_w), table);
    assert(is_division(area, Axis::Columns, r.0@, COL_SPACING, cols@));
    assert(shows_hosted(
        r.1,
        hosted_views(view.hosted@),
        view.now,
        *view.palette,
        view.multi_repo,
        cols@,
    ));
    r
}

/// The deployments within `area`, and what their columns ask for: the repository has a
/// column where more than one is polled.
pub fn vercel_section(area: Area, view: &View) -> (r: (Vec<Part>, ListTable))
    ensures
        r.0@ == vercel_columns(
            if view.multi_repo {
                Some(
                    width_for(
                        deployment_repos(
                            shown(deployment_views(view.deployments@), VERCEL_CAP as nat),
                        ),
                        REPO_HEADER_W as nat,
                    ),
                )
            } else {
                None
            },
        ),
        texts(r.1.header@) == deployment_header(view.multi_repo),
        exists|cols: Seq<Area>| #[trigger]
            is_division(area, Axis::Columns, r.0@, COL_SPACING, cols) && list_views(r.1.rows@)
                == deployment_rows(
                deployment_views(view.deployments@),
                view.now,
                *view.palette,
                view.multi_repo,
                cols,
            ),
{
    let repo_w: Option<u16> = if view.multi_repo {
        Some(deploy_repo_col_width(view.deployments))
    } else {
        None
    };
    let cols = vercel_col_layout(area, repo_w);
    let table = vercel_table(view.deployments, view.now, view.palette, view.multi_repo, &cols);
    let columns = vercel_constraints(repo_w);
    assert(is_division(area, Axis::Columns, columns@, COL_SPACING, cols@));
    (columns, table)
}

/// The contents of these are those of their fields.
pub proof fn cell_contents_are_those_of_the_fields(c: RunnerCells, r: ListRow)
    ensures
        c@.runner == c.runner@ && c@.mem == c.mem@ && c@.job == c.job@ && c@.branch == c.branch@
            && c@.elapsed == c.elapsed@,
        c@.mem_style == c.mem_style && c@.idle == c.idle && c@.style == c.style,
        r@.cells == texts(r.cells@),
        r@.fg == r.fg,
{
}

/// A number below a hundred takes two digits, the tens in front.
pub proof fn two_digits_are_tens_and_ones(tens: nat, ones: nat)
    requires
        tens < 10,
        ones < 10,
    ensures
        two_digits(10 * tens + ones) == seq![digit_char(tens), digit_char(ones)],
{
    decimals_grow_digit_by_digit(tens, ones);
    decimals_grow_digit_by_digit(0, ones);
    decimals_grow_digit_by_digit(0, tens);
    if tens == 0 {
        assert(two_digits(ones) =~= seq![digit_char(0), digit_char(ones)]);
    } else {
        assert(decimal(10 * tens + ones) =~= seq![digit_char(tens), digit_char(ones)]);
    }
}

/// A duration of hours, minutes and seconds is shown as these, and without the hours where
/// there are none.
pub proof fn durations_show_hours_minutes_and_seconds(h: nat, m: nat, s: nat)
    requires
        m < 60,
        s < 60,
        3600 * h + 60 * m + s <= u64::MAX,
    ensures
        ({
            let shown = elapsed_shown((3600 * h + 60 * m + s) as u64);
            &&& h > 0 ==> shown == decimal(h) + ":"@ + two_digits(m) + ":"@ + two_digits(s)
            &&& h == 0 ==> shown == two_digits(m) + ":"@ + two_digits(s)
        }),
{
    let n = 3600 * h + 60 * m + s;
    assert(n / 3600 == h);
    assert(n % 3600 == 60 * m + s);
    assert((60 * m + s) / 60 == m);
    assert(n % 60 == s);
}

/// A waiting time is shown in seconds below a minute, in minutes below an hour, and then in
/// hours and minutes.
pub proof fn waits_show_their_largest_units(h: nat, m: nat, s: nat)
    requires
        m < 60,
        s < 60,
        3600 * h + 60 * m + s <= u64::MAX,
    ensures
        ({
            let shown = wait_shown((3600 * h + 60 * m + s) as u64);
            &&& h == 0 && m == 0 ==> shown == decimal(s) + "s"@
            &&& h == 0 && m > 0 ==> shown == decimal(m) + "m"@
            &&& h > 0 ==> shown == decimal(h) + "h"@ + decimal(m) + "m"@
        }),
{
    let n = 3600 * h + 60 * m + s;
    assert(n / 3600 == h);
    assert(n % 3600 == 60 * m + s);
    assert((60 * m + s) / 60 == m);
}

proof fn lemma_nearest_of_small(n: nat)
    requires
        n < 0x20_0000_0000_0000,
    ensures
        nearest(n) == n,
{
    assert(grain(n) == 1);
    let q = round_even(n, 1);
    assert(q == n);
    assert(q * 1 == q);
}

/// Amounts are rounded to the nearest tenth of their unit.
pub proof fn amounts_are_rounded_to_tenths(bytes: nat, unit: nat)
    requires
        bytes < 0x20_0000_0000_0000,
        unit > 0,
    ensures
        2 * (10 * bytes - tenths(bytes, unit) * unit) <= unit,
        2 * (tenths(bytes, unit) * unit - 10 * bytes) <= unit,
{
    lemma_nearest_of_small(bytes);
    let a = 10 * bytes;
    let q = a / unit;
    let r = a % unit;
    assert(a == q * unit + r && 0 <= r < unit) by (nonlinear_arith)
        requires
            q == a / unit,
            r == a % unit,
            unit > 0,
    ;
    assert((q + 1) * unit == q * unit + unit) by (nonlinear_arith);
}

/// Memory is shown in tenths of a mebibyte below a gibibyte, and in tenths of a gibibyte from
/// there on.
pub proof fn memory_is_shown_in_its_unit(bytes: u64, t: nat)
    requires
        bytes < 0x20_0000_0000_0000,
    ensures
        bytes >= 1_073_741_824 && t == tenths(bytes as nat, 1_073_741_824) ==> mem_shown(bytes)
            == decimal(t / 10) + seq!['.', digit_char(t % 10)] + "GiB"@,
        bytes < 1_073_000_000 && t == tenths(bytes as nat, 1_048_576) ==> mem_shown(bytes)
            == decimal(t / 10) + seq!['.', digit_char(t % 10)] + "MiB"@,
{
    if bytes < 1_073_000_000 {
        let u = tenths(bytes as nat, 1_048_576);
        amounts_are_rounded_to_tenths(bytes as nat, 1_048_576);
        assert(u != 10240);
    }
}

/// How a runner's row looks: its colour is that of its load, on the background, and only an
/// idle row on a dark background is dimmed.
pub proof fn rows_look_like_their_load(load: Load, p: Palette)
    ensures
        load is Idle ==> style_of(load, p).fg == p.idle,
        load is Busy ==> style_of(load, p).fg == p.busy,
        load is NearCap ==> style_of(load, p).fg == p.near_cap,
        style_of(load, p).bg == p.base,
        style_of(load, p).dim <==> load is Idle && !p.is_light,
{
}

/// A row shows its runner's name, memory, job, branch and time where they fit, a dash for
/// what is missing, and whether it is busy or idle where no job is known.
pub proof fn rows_show_what_fits(
    row: RowView,
    now: Timestamp,
    p: Palette,
    runner_w: nat,
    job_w: nat,
    branch_w: nat,
)
    ensures
        ({
            let c = row_cells(row, now, p, runner_w, job_w, branch_w);
            let title = row.job->0.workflow + " \u{203a} "@ + row.job->0.job;
            &&& text_width(row.name) <= runner_w ==> c.runner == row.name
            &&& row.mem_limit == 0 ==> c.mem == mem_shown(row.mem_bytes)
            &&& row.mem_limit > 0 ==> c.mem == mem_shown(row.mem_bytes) + "/"@ + mem_shown(
                row.mem_limit,
            )
            &&& row.job is Some && text_width(title) <= job_w ==> c.job == title
            &&& row.job is Some && row.job->0.branch.len() > 0 && text_width(row.job->0.branch)
                <= branch_w ==> c.branch == row.job->0.branch
            &&& row.job is Some ==> c.elapsed == elapsed_shown(
                seconds_between(row.job->0.started_at, now) as u64,
            )
            &&& row.job is None ==> c.elapsed == "-"@
            &&& (row.job is None || row.job->0.branch.len() == 0) && text_width("-"@) <= branch_w
                ==> c.branch == "-"@
            &&& row.job is None && row.load is Busy && text_width("busy"@) <= job_w ==> c.job
                == "busy"@
            &&& row.job is None && row.load !is Busy && text_width("\u{2014} idle"@) <= job_w
                ==> c.job == "\u{2014} idle"@
            &&& c.idle <==> row.load is Idle
            &&& c.style == style_of(row.load, p)
            &&& c.mem_style is Some <==> row.mem_level is Warn
            &&& c.mem_style is Some ==> c.mem_style->0.fg == p.warn && c.mem_style->0.bg == p.base
                && !c.mem_style->0.dim
        }),
{
}

/// A row that is too wide for its columns is cut: its name at the front, so that the number
/// stays, its job and its branch at the end.
pub proof fn rows_are_cut_to_their_columns(
    row: RowView,
    now: Timestamp,
    p: Palette,
    runner_w: nat,
    job_w: nat,
    branch_w: nat,
)
    requires
        row.job is Some,
        runner_w > 0,
        job_w > 0,
        branch_w > 0,
    ensures
        ({
            let c = row_cells(row, now, p, runner_w, job_w, branch_w);
            let title = row.job->0.workflow + " \u{203a} "@ + row.job->0.job;
            &&& text_width(row.name) > runner_w ==> c.runner.len() > 0 && c.runner[0] == '\u{2026}'
                && c.runner.skip(1).is_suffix_of(row.name)
            &&& text_width(title) > job_w ==> c.job.len() > 0 && c.job.last() == '\u{2026}'
                && c.job.drop_last().is_prefix_of(title)
            &&& row.job->0.branch.len() > 0 && text_width(row.job->0.branch) > branch_w
                ==> c.branch.len() > 0 && c.branch.last() == '\u{2026}'
                && c.branch.drop_last().is_prefix_of(row.job->0.branch)
        }),
{
    let title = row.job->0.workflow + " \u{203a} "@ + row.job->0.job;
    front_cut_texts_keep_their_end(row.name, runner_w);
    cut_texts_keep_their_front(title, job_w);
    cut_texts_keep_their_front(row.job->0.branch, branch_w);
}

/// The table has one row for each runner, in their order, cut to the widths of the first, the
/// sixth and the seventh column.
pub proof fn tables_show_every_row(
    rows: Seq<RowView>,
    now: Timestamp,
    p: Palette,
    cols: Seq<Area>,
    i: int,
)
    requires
        0 <= i < rows.len(),
    ensures
        runner_rows(rows, now, p, cols).len() == rows.len(),
        runner_rows(rows, now, p, cols)[i] == row_cells(
            rows[i],
            now,
            p,
            cols[0].width as nat,
            cols[5].width as nat,
            cols[6].width as nat,
        ),
{
}

/// The columns of the runner table are headed in this order.
pub proof fn the_runner_table_is_headed_in_order()
    ensures
        joined(runner_header(), "|"@)
            == "runner|cpu|~cpu|mem|~mem|workflow \u{203a} job|branch|elapsed"@,
{
    reveal_with_fuel(joined, 9);
    reveal_strlit("runner|cpu|~cpu|mem|~mem|workflow \u{203a} job|branch|elapsed");
    reveal_strlit("|");
    reveal_strlit("runner");
    reveal_strlit("cpu");
    reveal_strlit("~cpu");
    reveal_strlit("mem");
    reveal_strlit("~mem");
    reveal_strlit("workflow \u{203a} job");
    reveal_strlit("branch");
    reveal_strlit("elapsed");
    let h = runner_header();
    assert(h.drop_last().drop_last().drop_last().drop_last().drop_last().drop_last().drop_last()
        =~= seq!["runner"@]);
    assert(joined(h, "|"@) =~= "runner|cpu|~cpu|mem|~mem|workflow \u{203a} job|branch|elapsed"@);
}

/// In the runner table the names get what they need, the jobs and the branches share what is
/// left, and the other columns are fixed.
pub proof fn runner_columns_are_fixed_but_for_three(runner_w: u16)
    ensures
        ({
            let c = runner_columns(runner_w);
            &&& c.len() == 8
            &&& c[0] == Part::Length(runner_w)
            &&& c[1] == Part::Length(6) && c[3] == Part::Length(16) && c[7] == Part::Length(10)
            &&& c[2] == Part::Length(20) && c[4] == Part::Length(20)
            &&& c[5] == Part::Min(12) && c[6] == Part::Min(8)
        }),
{
}

/// In the lists the first column and the texts share what is left, the others are fixed, and
/// the repository has a column behind the first one where it is asked for.
pub proof fn list_columns_are_in_order(w: u16)
    ensures
        hosted_columns(None) == seq![
            Part::Min(12),
            Part::Length(14),
            Part::Min(8),
            Part::Length(12),
        ],
        hosted_columns(Some(w)) == seq![
            Part::Min(12),
            Part::Length(w),
            Part::Length(14),
            Part::Min(8),
            Part::Length(12),
        ],
        vercel_columns(None) == seq![
            Part::Min(12),
            Part::Length(10),
            Part::Min(8),
            Part::Min(12),
            Part::Length(12),
        ],
        vercel_columns(Some(w)) == seq![
            Part::Min(12),
            Part::Length(w),
            Part::Length(10),
            Part::Min(8),
            Part::Min(12),
            Part::Length(12),
        ],
{
    assert(hosted_columns(None) =~= seq![
        Part::Min(12),
        Part::Length(14),
        Part::Min(8),
        Part::Length(12),
    ]);
    assert(hosted_columns(Some(w)) =~= seq![
        Part::Min(12),
        Part::Length(w),
        Part::Length(14),
        Part::Min(8),
        Part::Length(12),
    ]);
    assert(vercel_columns(None) =~= seq![
        Part::Min(12),
        Part::Length(10),
        Part::Min(8),
        Part::Min(12),
        Part::Length(12),
    ]);
    assert(vercel_columns(Some(w)) =~= seq![
        Part::Min(12),
        Part::Length(w),
        Part::Length(10),
        Part::Min(8),
        Part::Min(12),
        Part::Length(12),
    ]);
}

/// The headers of the lists name their columns, in the same order.
pub proof fn list_headers_name_their_columns(job_w: nat)
    requires
        text_width("workflow \u{203a} job"@) <= job_w,
    ensures
        hosted_header(job_w, false) == seq![
            "workflow \u{203a} job"@,
            "label"@,
            "branch"@,
            "elapsed"@,
        ],
        hosted_header(job_w, true) == seq![
            "workflow \u{203a} job"@,
            "repo"@,
            "label"@,
            "branch"@,
            "elapsed"@,
        ],
        deployment_header(false) == seq!["project"@, "target"@, "branch"@, "commit"@, "elapsed"@],
        deployment_header(true) == seq![
            "project"@,
            "repo"@,
            "target"@,
            "branch"@,
            "commit"@,
            "elapsed"@,
        ],
{
    assert(hosted_header(job_w, false) =~= seq![
        "workflow \u{203a} job"@,
        "label"@,
        "branch"@,
        "elapsed"@,
    ]);
    assert(hosted_header(job_w, true) =~= seq![
        "workflow \u{203a} job"@,
        "repo"@,
        "label"@,
        "branch"@,
        "elapsed"@,
    ]);
    assert(deployment_header(false) =~= seq![
        "project"@,
        "target"@,
        "branch"@,
        "commit"@,
        "elapsed"@,
    ]);
    assert(deployment_header(true) =~= seq![
        "project"@,
        "repo"@,
        "target"@,
        "branch"@,
        "commit"@,
        "elapsed"@,
    ]);
}

/// What an entry of a list shows of a text: all of it where it fits, and otherwise its front
/// behind which an ellipsis stands.
pub open spec fn shows(cell: Seq<char>, text: Seq<char>, w: nat) -> bool {
    &&& text_width(text) <= w ==> cell == text
    &&& text_width(text) > w && w > 0 ==> cell.len() > 0 && cell.last() == '\u{2026}'
        && cell.drop_last().is_prefix_of(text)
}

/// The time of a list's entry: how long it has been running, or that it is queued and for how
/// long.
pub open spec fn is_age(text: Seq<char>, queued: bool, secs: u64) -> bool {
    &&& queued ==> text == "queued "@ + wait_shown(secs)
    &&& !queued ==> text == elapsed_shown(secs)
}

/// A hosted job's row shows its mark, workflow and job, its repository where there is a
/// column for it, its label, its branch and its time, in the colour of its status.
pub proof fn hosted_rows_show_their_job(
    j: HostedView,
    now: Timestamp,
    p: Palette,
    job_w: nat,
    branch_w: nat,
    w: usize,
)
    ensures
        ({
            let a = hosted_cells(j, now, p, job_w, branch_w, None);
            let b = hosted_cells(j, now, p, job_w, branch_w, Some(w));
            let waits = j.status is Queued;
            let title = (if waits {
                "\u{25cb} "@
            } else {
                "\u{25cf} "@
            }) + j.workflow + " \u{203a} "@ + j.job;
            let age = age_shown(waits, j.since, now);
            &&& a.cells.len() == 4 && b.cells.len() == 5
            &&& shows(a.cells[0], title, job_w) && b.cells[0] == a.cells[0]
            &&& text_width(j.repo) <= w ==> b.cells[1] == j.repo
            &&& shows(a.cells[1], j.label, 14) && b.cells[2] == a.cells[1]
            &&& j.branch.len() > 0 ==> shows(a.cells[2], j.branch, branch_w)
            &&& j.branch.len() == 0 ==> shows(a.cells[2], "-"@, branch_w)
            &&& b.cells[3] == a.cells[2]
            &&& is_age(age, waits, seconds_between(j.since, now) as u64)
            &&& shows(a.cells[3], age, 12) && b.cells[4] == a.cells[3]
            &&& waits ==> a.fg == p.warn && b.fg == p.warn
            &&& !waits ==> a.fg == p.busy && b.fg == p.busy
        }),
{
    let waits = j.status is Queued;
    let title = mark(waits) + j.workflow + " \u{203a} "@ + j.job;
    cut_texts_keep_their_front(title, job_w);
    cut_texts_keep_their_front(j.label, 14);
    cut_texts_keep_their_front(j.branch, branch_w);
    cut_texts_keep_their_front("-"@, branch_w);
    cut_texts_keep_their_front(age_shown(waits, j.since, now), 12);
}

/// A deployment's row shows its mark and project, its repository where there is a column for
/// it, its target, its branch, its commit and its time, in the colour of its status.
pub proof fn deployment_rows_show_their_deployment(
    d: DeploymentView,
    now: Timestamp,
    p: Palette,
    project_w: nat,
    branch_w: nat,
    commit_w: nat,
    w: usize,
)
    ensures
        ({
            let a = deployment_cells(d, now, p, project_w, branch_w, commit_w, None);
            let b = deployment_cells(d, now, p, project_w, branch_w, commit_w, Some(w));
            let waits = d.status is Queued;
            let title = (if waits {
                "\u{25cb} "@
            } else {
                "\u{25cf} "@
            }) + d.project;
            let age = age_shown(waits, d.started_at, now);
            &&& a.cells.len() == 5 && b.cells.len() == 6
            &&& shows(a.cells[0], title, project_w) && b.cells[0] == a.cells[0]
            &&& text_width(d.repo) <= w ==> b.cells[1] == d.repo
            &&& shows(a.cells[1], d.target, 10) && b.cells[2] == a.cells[1]
            &&& d.branch.len() > 0 ==> shows(a.cells[2], d.branch, branch_w)
            &&& d.branch.len() == 0 ==> shows(a.cells[2], "-"@, branch_w)
            &&& b.cells[3] == a.cells[2]
            &&& shows(a.cells[3], d.commit_summary, commit_w) && b.cells[4] == a.cells[3]
            &&& is_age(age, waits, seconds_between(d.started_at, now) as u64)
            &&& shows(a.cells[4], age, 12) && b.cells[5] == a.cells[4]
            &&& waits ==> a.fg == p.warn && b.fg == p.warn
            &&& !waits ==> a.fg == p.busy && b.fg == p.busy
        }),
{
    let waits = d.status is Queued;
    let title = mark(waits) + d.project;
    cut_texts_keep_their_front(title, project_w);
    cut_texts_keep_their_front(d.target, 10);
    cut_texts_keep_their_front(d.branch, branch_w);
    cut_texts_keep_their_front("-"@, branch_w);
    cut_texts_keep_their_front(d.commit_summary, commit_w);
    cut_texts_keep_their_front(age_shown(waits, d.started_at, now), 12);
}

/// A list shows its first six entries in order, each cut to its own columns, and how many
/// more there are.
pub proof fn lists_show_their_first_entries(
    hosted: Seq<HostedView>,
    deployments: Seq<DeploymentView>,
    now: Timestamp,
    p: Palette,
    cols: Seq<Area>,
    i: int,
)
    requires
        0 <= i < 6,
        cols.len() >= 3,
    ensures
        ({
            let h = hosted_rows(hosted, now, p, false, cols);
            let hm = hosted_rows(hosted, now, p, true, cols);
            let d = deployment_rows(deployments, now, p, false, cols);
            let dm = deployment_rows(deployments, now, p, true, cols);
            let n = cols.len();
            &&& i < hosted.len() ==> h[i] == hosted_cells(
                hosted[i],
                now,
                p,
                cols[0].width as nat,
                cols[n - 2].width as nat,
                None,
            )
            &&& i < hosted.len() ==> hm[i] == hosted_cells(
                hosted[i],
                now,
                p,
                cols[0].width as nat,
                cols[n - 2].width as nat,
                Some(cols[1].width as usize),
            )
            &&& i < deployments.len() ==> d[i] == deployment_cells(
                deployments[i],
                now,
                p,
                cols[0].width as nat,
                cols[n - 3].width as nat,
                cols[n - 2].width as nat,
                None,
            )
            &&& i < deployments.len() ==> dm[i] == deployment_cells(
                deployments[i],
                now,
                p,
                cols[0].width as nat,
                cols[n - 3].width as nat,
                cols[n - 2].width as nat,
                Some(cols[1].width as usize),
            )
            &&& hosted.len() <= 6 ==> h.len() == hosted.len() && hm.len() == hosted.len()
            &&& hosted.len() > 6 ==> h.len() == 7 && h[6].cells == seq![
                "+"@ + decimal((hosted.len() - 6) as nat) + " more"@,
            ] && h[6].fg == p.idle
            &&& deployments.len() <= 6 ==> d.len() == deployments.len() && dm.len()
                == deployments.len()
            &&& deployments.len() > 6 ==> d.len() == 7 && d[6].cells == seq![
                "+"@ + decimal((deployments.len() - 6) as nat) + " more"@,
            ] && d[6].fg == p.idle
        }),
{
}

/// A list takes no line while it is empty, and otherwise one for its header, one for each of
/// at most six entries and one for the rest.
pub proof fn lists_take_at_most_eight_lines(n: nat)
    ensures
        list_height(0, 6) == 0,
        0 < n <= 6 ==> list_height(n, 6) == n + 1,
        n > 6 ==> list_height(n, 6) == 8,
        HOSTED_CAP == 6 && VERCEL_CAP == 6,
{
}

/// A column is as wide as its header or as one of its texts.
pub proof fn columns_are_no_wider_than_needed(ts: Seq<Seq<char>>, floor: nat)
    ensures
        widest(ts, floor) == floor || exists|i: int|
            0 <= i < ts.len() && text_width(#[trigger] ts[i]) == widest(ts, floor),
        widest(ts, floor) <= u16::MAX ==> width_for(ts, floor) == widest(ts, floor),
        RUNNER_HEADER_W == 6 && REPO_HEADER_W == 4,
    decreases ts.len(),
{
    if ts.len() > 0 {
        let front = ts.drop_last();
        columns_are_no_wider_than_needed(front, floor);
        if text_width(ts.last()) as nat > widest(front, floor) {
            assert(text_width(ts[ts.len() - 1]) == widest(ts, floor));
        } else if widest(front, floor) != floor {
            let i = choose|i: int|
                0 <= i < front.len() && text_width(#[trigger] front[i]) == widest(front, floor);
            assert(text_width(ts[i]) == widest(ts, floor));
        }
    }
}

/// The names and the repositories that columns are measured by are those of the rows and of
/// the entries that are shown.
pub proof fn columns_are_measured_by_what_is_shown(
    rows: Seq<RowView>,
    hosted: Seq<HostedView>,
    deployments: Seq<DeploymentView>,
    i: int,
)
    requires
        0 <= i,
    ensures
        i < rows.len() ==> runner_names(rows)[i] == rows[i].name,
        runner_names(rows).len() == rows.len(),
        i < hosted.len() && i < 6 ==> hosted_repos(shown(hosted, 6))[i] == hosted[i].repo,
        hosted_repos(shown(hosted, 6)).len() == (if hosted.len() <= 6 {
            hosted.len()
        } else {
            6
        }),
        i < deployments.len() && i < 6 ==> deployment_repos(shown(deployments, 6))[i]
            == deployments[i].repo,
        deployment_repos(shown(deployments, 6)).len() == (if deployments.len() <= 6 {
            deployments.len()
        } else {
            6
        }),
{
}

/// While no runner is shown the section says why: matching runners have not been read yet,
/// containers run but none matches the prefix, or there is nothing.
pub proof fn empty_sections_say_why(matched: usize, unmatched: usize, prefix: Seq<char>)
    ensures
        matched > 0 ==> empty_message(matched, unmatched, prefix)
            == "waiting for runner stats\u{2026}"@,
        matched == 0 && unmatched > 0 ==> empty_message(matched, unmatched, prefix) == decimal(
            unmatched as nat,
        ) + " containers running, none match prefix '"@ + prefix + "'"@,
        matched == 0 && unmatched == 0 ==> empty_message(matched, unmatched, prefix)
            == "waiting for runners\u{2026}"@,
{
}

/// The gauge names the use and the cap in gibibytes and, from the thresholds on, that the cap
/// is near; its colour says the same.
pub proof fn gauges_show_use_cap_and_level(total: u64, gib: nat, level: MemLevel, p: Palette)
    requires
        gib < 0x80_0000,
    ensures
        ({
            let cap = (gib * 1_073_741_824) as u64;
            let t = tenths(total as nat, 1_073_741_824);
            let text = decimal(t / 10) + seq!['.', digit_char(t % 10)] + " / "@ + decimal(gib)
                + " GiB"@;
            &&& level is Normal ==> gauge_label(total, cap, level) == text
            &&& level is Warn ==> gauge_label(total, cap, level) == text + " \u{26a0} warn"@
            &&& level is Critical ==> gauge_label(total, cap, level) == text
                + " \u{26a0} NEAR CAP"@
        }),
        level is Normal ==> level_color(level, p) == p.gauge,
        level is Warn ==> level_color(level, p) == p.warn,
        level is Critical ==> level_color(level, p) == p.near_cap,
{
    let cap = (gib * 1_073_741_824) as nat;
    lemma_nearest_of_small(cap);
    assert(whole_gib(cap as u64) == gib);
    reveal_strlit("");
    let text = tenths_shown(tenths(total as nat, GIB as nat)) + " / "@ + decimal(gib) + " GiB"@;
    assert(text + ""@ =~= text);
}

/// The screen is divided from top to bottom: a line for the title, one for the banner where
/// there is a complaint, what is left for the runners, a framed list each for the hosted jobs
/// and the deployments that there are, and three lines for the memory.
pub proof fn sections_ask_for_their_lines(h: u16, v: u16)
    requires
        0 < h <= 8,
        0 < v <= 8,
    ensures
        section_parts(false, 0, 0) == seq![Part::Length(1), Part::Min(3), Part::Length(3)],
        section_parts(true, 0, 0) == seq![
            Part::Length(1),
            Part::Length(1),
            Part::Min(3),
            Part::Length(3),
        ],
        section_parts(false, h, 0) == seq![
            Part::Length(1),
            Part::Min(3),
            Part::Length((h + 2) as u16),
            Part::Length(3),
        ],
        section_parts(false, 0, v) == seq![
            Part::Length(1),
            Part::Min(3),
            Part::Length((v + 2) as u16),
            Part::Length(3),
        ],
        section_parts(true, h, v) == seq![
            Part::Length(1),
            Part::Length(1),
            Part::Min(3),
            Part::Length((h + 2) as u16),
            Part::Length((v + 2) as u16),
            Part::Length(3),
        ],
{
    assert(section_parts(false, 0, 0) =~= seq![Part::Length(1), Part::Min(3), Part::Length(3)]);
    assert(section_parts(true, 0, 0) =~= seq![
        Part::Length(1),
        Part::Length(1),
        Part::Min(3),
        Part::Length(3),
    ]);
    assert(section_parts(false, h, 0) =~= seq![
        Part::Length(1),
        Part::Min(3),
        Part::Length((h + 2) as u16),
        Part::Length(3),
    ]);
    assert(section_parts(false, 0, v) =~= seq![
        Part::Length(1),
        Part::Min(3),
        Part::Length((v + 2) as u16),
        Part::Length(3),
    ]);
    assert(section_parts(true, h, v) =~= seq![
        Part::Length(1),
        Part::Length(1),
        Part::Min(3),
        Part::Length((h + 2) as u16),
        Part::Length((v + 2) as u16),
        Part::Length(3),
    ]);
}

/// The sections take their areas from top to bottom, each its own and none left over.
pub proof fn sections_take_their_areas_in_order(
    areas: Seq<Area>,
    has_banner: bool,
    has_hosted: bool,
    has_vercel: bool,
)
    requires
        areas.len() == 3 + count(has_banner) + count(has_hosted) + count(has_vercel),
    ensures
        ({
            let s = sections_of(areas, has_banner, has_hosted, has_vercel);
            let there = |part: bool, a: Option<Area>|
                if part {
                    seq![a->0]
                } else {
                    Seq::<Area>::empty()
                };
            &&& s.banner is Some <==> has_banner
            &&& s.hosted is Some <==> has_hosted
            &&& s.vercel is Some <==> has_vercel
            &&& areas == seq![s.title] + there(has_banner, s.banner) + seq![s.runners] + there(
                has_hosted,
                s.hosted,
            ) + there(has_vercel, s.vercel) + seq![s.memory]
        }),
{
    let s = sections_of(areas, has_banner, has_hosted, has_vercel);
    let there = |part: bool, a: Option<Area>|
        if part {
            seq![a->0]
        } else {
            Seq::<Area>::empty()
        };
    assert(areas =~= seq![s.title] + there(has_banner, s.banner) + seq![s.runners] + there(
        has_hosted,
        s.hosted,
    ) + there(has_vercel, s.vercel) + seq![s.memory]);
}

/// The message of an empty section stands on one line between two equal spaces.
pub proof fn empty_messages_stand_in_the_middle()
    ensures
        message_parts().len() == 3,
        message_parts()[0] == message_parts()[2],
        message_parts()[0] is Fill,
        message_parts()[1] == Part::Length(1),
{
}

/// Each step of height sets one more dot of a Braille column, from below: on the left dots 7,
/// 3, 2 and 1, on the right dots 8, 6, 5 and 4. A column without height has none.
pub proof fn braille_columns_fill_from_below(h: int, hr: int)
    ensures
        left_dots(0) == 0 && right_dots(0) == 0,
        left_dots(1) - left_dots(0) == 0x40 && left_dots(2) - left_dots(1) == 0x04 && left_dots(3)
            - left_dots(2) == 0x02 && left_dots(4) - left_dots(3) == 0x01,
        right_dots(1) - right_dots(0) == 0x80 && right_dots(2) - right_dots(1) == 0x20
            && right_dots(3) - right_dots(2) == 0x10 && right_dots(4) - right_dots(3) == 0x08,
        h >= 4 ==> left_dots(h) == 0x47 && right_dots(h) == 0xb8,
        glyph(h, hr) as u32 == 0x2800 + left_dots(h) + right_dots(hr),
{
}

/// A cell of a sparkline shows the heights of its two samples; it is blank where it has none.
pub proof fn cells_show_the_heights_of_their_samples(heights: Seq<usize>, width: nat, c: nat)
    requires
        c < width,
        heights.len() <= usize::MAX,
    ensures
        ({
            let cell = spark_cell(heights, width, c);
            let newest = heights.len() - 1;
            let i = newest - 2 * (width - 1 - c);
            &&& i >= 1 ==> cell.left == Some((i - 1) as usize) && cell.right == Some(i as usize)
                && cell.glyph == glyph(heights[i - 1] as int, heights[i] as int)
            &&& i == 0 ==> cell.left is None && cell.right == Some(0usize) && cell.glyph == glyph(
                0,
                heights[0] as int,
            )
            &&& i < 0 ==> cell.left is None && cell.right is None && cell.glyph == ' '
        }),
{
}

/// What lies within an area is nowhere outside it.
pub proof fn parts_stay_within_their_area(inner: Area, outer: Area, x: int, y: int)
    requires
        lies_within(inner, outer),
        inner.x <= x < inner.x + inner.width,
        inner.y <= y < inner.y + inner.height,
    ensures
        outer.x <= x < outer.x + outer.width,
        outer.y <= y < outer.y + outer.height,
{
}

/// A division gives every part an area within the whole: side by side over the full height,
/// or one above the other over the full width.
pub proof fn divisions_give_every_part_an_area(
    area: Area,
    axis: Axis,
    parts: Seq<Part>,
    spacing: u16,
    areas: Seq<Area>,
    i: int,
)
    requires
        is_division(area, axis, parts, spacing, areas),
        0 <= i < parts.len(),
    ensures
        areas.len() == parts.len(),
        solved(area, axis, parts, spacing, areas),
        area.x <= areas[i].x && areas[i].x + areas[i].width <= area.x + area.width,
        area.y <= areas[i].y && areas[i].y + areas[i].height <= area.y + area.height,
        axis is Columns ==> areas[i].y == area.y && areas[i].height == area.height,
        axis is Rows ==> areas[i].x == area.x && areas[i].width == area.width,
{
}

/// The gauge compares the memory of the containers with the cap, says so, and is coloured by
/// how near the cap is.
pub proof fn gauges_compare_use_and_cap(
    rows: &[RunnerRow],
    slice_cap_bytes: u64,
    warn_pct: u64,
    crit_pct: u64,
    p: &Palette,
    r: GaugeText,
)
    requires
        call_ensures(gauge_text, (rows, slice_cap_bytes, warn_pct, crit_pct, p), r),
        slice_cap_bytes > 0,
        warn_pct <= crit_pct,
    ensures
        r.total == total_bytes(row_views(rows@)),
        r.cap == slice_cap_bytes,
        r.total * 100 >= slice_cap_bytes * crit_pct ==> r.fill == p.near_cap && r.label@
            == gauge_label(r.total, slice_cap_bytes, MemLevel::Critical),
        slice_cap_bytes * warn_pct <= r.total * 100 < slice_cap_bytes * crit_pct ==> r.fill
            == p.warn && r.label@ == gauge_label(r.total, slice_cap_bytes, MemLevel::Warn),
        r.total * 100 < slice_cap_bytes * warn_pct && r.total * 100 < slice_cap_bytes * crit_pct
            ==> r.fill == p.gauge && r.label@ == gauge_label(
            r.total,
            slice_cap_bytes,
            MemLevel::Normal,
        ),
{
    levels_go_by_percentages(r.total, slice_cap_bytes, warn_pct, crit_pct);
}

/// The screen has a banner exactly where there is a complaint, a list of hosted jobs exactly
/// where there is one, and a list of deployments exactly where there is one; every section
/// lies on the screen.
pub proof fn screens_have_the_sections_they_need(area: Area, view: &View, r: Sections)
    requires
        call_ensures(frame_sections, (area, view), r),
    ensures
        r.banner is Some <==> view.status is Some,
        r.hosted is Some <==> view.hosted@.len() > 0,
        r.vercel is Some <==> view.deployments@.len() > 0,
        r.title.x == area.x && r.title.width == area.width,
        r.runners.x == area.x && r.runners.width == area.width,
        r.memory.x == area.x && r.memory.width == area.width,
        lies_within(r.title, area) && lies_within(r.runners, area) && lies_within(r.memory, area),
        r.banner is Some ==> lies_within(r.banner->0, area),
        r.hosted is Some ==> lies_within(r.hosted->0, area),
        r.vercel is Some ==> lies_within(r.vercel->0, area),
{
    let (b, h, v) = (
        view.status is Some,
        view.hosted@.len() > 0,
        view.deployments@.len() > 0,
    );
    let parts = section_parts(
        b,
        list_height(view.hosted@.len(), HOSTED_CAP as nat) as u16,
        list_height(view.deployments@.len(), VERCEL_CAP as nat) as u16,
    );
    let areas = choose|areas: Seq<Area>| #[trigger]
        is_division(area, Axis::Rows, parts, 0, areas) && r == sections_of(areas, b, h, v);
    assert(is_division(area, Axis::Rows, parts, 0, areas));
    assert(areas.len() == parts.len());
    assert(areas[0].x == area.x);
    assert(areas[areas.len() - 1].x == area.x);
    assert(areas[1].x == area.x);
    if b {
        assert(areas[2].x == area.x);
    }
}

/// The runner table has the columns of its header, and one row of cells for each runner.
pub proof fn runner_tables_have_a_row_per_runner(area: Area, view: &View, r: RunnerTable, i: int)
    requires
        call_ensures(runner_section, (area, view), r),
        0 <= i < view.rows@.len(),
    ensures
        texts(r.header@) == runner_header(),
        r.columns@.len() == 8 && r.columns@[0] == Part::Length(
            width_for(runner_names(row_views(view.rows@)), 6),
        ),
        r.rows@.len() == view.rows@.len(),
        r.rows@[i].idle <==> view.rows@[i].load is Idle,
        view.rows@[i].job is None ==> r.rows@[i].elapsed@ == "-"@,
        view.rows@[i].job is Some ==> r.rows@[i].elapsed@ == elapsed_shown(
            seconds_between(view.rows@[i].job->0.started_at, view.now) as u64,
        ),
        view.rows@[i].mem_limit == 0 ==> r.rows@[i].mem@ == mem_shown(view.rows@[i].mem_bytes),
{
    let rows = row_views(view.rows@);
    let cols = choose|cols: Seq<Area>| #[trigger]
        is_division(area, Axis::Columns, r.columns@, COL_SPACING, cols) && cells_views(r.rows@)
            == runner_rows(rows, view.now, *view.palette, cols);
    tables_show_every_row(rows, view.now, *view.palette, cols, i);
    assert(rows[i] == view.rows@[i]@);
    let cells = cells_views(r.rows@);
    assert(cells.len() == r.rows@.len());
    assert(cells[i] == r.rows@[i]@);
}

/// The lists have a line for each of at most six entries and one for the rest, and a column
/// for the repository exactly where more than one is polled.
pub proof fn lists_have_a_line_per_entry(
    area: Area,
    view: &View,
    h: (Vec<Part>, ListTable),
    v: (Vec<Part>, ListTable),
)
    requires
        call_ensures(hosted_section, (area, view), h),
        call_ensures(vercel_section, (area, view), v),
    ensures
        h.0@.len() == (if view.multi_repo {
            5int
        } else {
            4
        }),
        v.0@.len() == (if view.multi_repo {
            6int
        } else {
            5
        }),
        h.1.header@.len() == h.0@.len() && v.1.header@.len() == v.0@.len(),
        view.multi_repo ==> h.1.header@[1]@ == "repo"@ && v.1.header@[1]@ == "repo"@,
        h.1.rows@.len() == (if view.hosted@.len() <= 6 {
            view.hosted@.len()
        } else {
            7
        }),
        v.1.rows@.len() == (if view.deployments@.len() <= 6 {
            view.deployments@.len()
        } else {
            7
        }),
        v.1.header@[0]@ == "project"@,
{
    let hosted = hosted_views(view.hosted@);
    let deployments = deployment_views(view.deployments@);
    assert(hosted.len() == view.hosted@.len());
    assert(deployments.len() == view.deployments@.len());
    let hc = choose|cols: Seq<Area>| #[trigger]
        is_division(area, Axis::Columns, h.0@, COL_SPACING, cols) && shows_hosted(
            h.1,
            hosted,
            view.now,
            *view.palette,
            view.multi_repo,
            cols,
        );
    let vc = choose|cols: Seq<Area>| #[trigger]
        is_division(area, Axis::Columns, v.0@, COL_SPACING, cols) && list_views(v.1.rows@)
            == deployment_rows(deployments, view.now, *view.palette, view.multi_repo, cols);
    lists_show_their_first_entries(hosted, deployments, view.now, *view.palette, hc, 0);
    lists_show_their_first_entries(hosted, deployments, view.now, *view.palette, vc, 0);
    assert(texts(h.1.header@).len() == h.1.header@.len());
    assert(texts(v.1.header@).len() == v.1.header@.len());
    assert(texts(v.1.header@)[0] == v.1.header@[0]@);
    if view.multi_repo {
        assert(texts(h.1.header@)[1] == h.1.header@[1]@);
        assert(texts(v.1.header@)[1] == v.1.header@[1]@);
    }
    assert(list_views(h.1.rows@).len() == h.1.rows@.len());
    assert(list_views(v.1.rows@).len() == v.1.rows@.len());
}

/// What a list shows of an entry stands in the entry's row.
pub proof fn lists_hold_the_rows_of_their_entries(
    hosted: &[HostedJob],
    deployments: &[Deployment],
    now: Timestamp,
    p: &Palette,
    cols: &Vec<Area>,
    h: ListTable,
    v: ListTable,
    i: int,
)
    requires
        call_ensures(hosted_table, (hosted, now, p, false, cols), h),
        call_ensures(vercel_table, (deployments, now, p, false, cols), v),
        cols@.len() >= 4,
        0 <= i < 6,
        i < hosted@.len(),
        i < deployments@.len(),
    ensures
        h.rows@[i]@ == hosted_cells(
            hosted@[i]@,
            now,
            *p,
            cols@[0].width as nat,
            cols@[cols@.len() - 2].width as nat,
            None,
        ),
        v.rows@[i]@ == deployment_cells(
            deployments@[i]@,
            now,
            *p,
            cols@[0].width as nat,
            cols@[cols@.len() - 3].width as nat,
            cols@[cols@.len() - 2].width as nat,
            None,
        ),
        texts(h.header@) == hosted_header(cols@[0].width as nat, false),
        texts(v.header@) == deployment_header(false),
{
    let hs = hosted_views(hosted@);
    let ds = deployment_views(deployments@);
    lists_show_their_first_entries(hs, ds, now, *p, cols@, i);
    assert(hs[i] == hosted@[i]@ && ds[i] == deployments@[i]@);
    assert(list_views(h.rows@)[i] == h.rows@[i]@);
    assert(list_views(v.rows@)[i] == v.rows@[i]@);
}

/// The columns of the tables are laid out with one column between neighbours.
pub proof fn columns_stand_one_apart(
    area: Area,
    w: u16,
    repo_w: Option<u16>,
    r: Vec<Area>,
    h: Vec<Area>,
    v: Vec<Area>,
)
    requires
        call_ensures(column_layout, (area, w), r),
        call_ensures(hosted_col_layout, (area, repo_w), h),
        call_ensures(vercel_col_layout, (area, repo_w), v),
    ensures
        solved(area, Axis::Columns, runner_columns(w), 1, r@),
        solved(area, Axis::Columns, hosted_columns(repo_w), 1, h@),
        solved(area, Axis::Columns, vercel_columns(repo_w), 1, v@),
        r@.len() == 8,
        h@.len() == hosted_columns(repo_w).len(),
        v@.len() == vercel_columns(repo_w).len(),
{
}

/// The contents of tables are those of their rows, in order.
pub proof fn table_contents_keep_their_places(cs: Seq<RunnerCells>, rows: Seq<ListRow>, i: int)
    ensures
        0 <= i < cs.len() ==> cells_views(cs)[i] == cs[i]@,
        0 <= i < rows.len() ==> list_views(rows)[i] == rows[i]@,
        cells_views(cs).len() == cs.len(),
        list_views(rows).len() == rows.len(),
{
}

/// A character counts for its width, and one without a width for nothing; a text counts for
/// the sum.
pub proof fn texts_count_for_their_characters(s: Seq<char>, c: char)
    ensures
        char_width(c) is Some ==> columns(c) == char_width(c)->0,
        char_width(c) is None ==> columns(c) == 0,
        columns_of(Seq::empty()) == 0,
        columns_of(s.push(c)) == columns_of(s) + columns(c),
{
    assert(s.push(c).drop_last() =~= s);
}

} // verus!
