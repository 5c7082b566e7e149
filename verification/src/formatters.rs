use crate::models::{
    EBlockView, Exercise, ExerciseView, ExerciseWrapper, JDay, JDayView, LoggedSet, LoggedSetView,
    User,
};
use crate::text::{
    decimal, digit_char, join, join_strings, part_offset, push_char, push_decimal, views,
};
use vstd::prelude::*;

verus! {

/// What a piece of output text says, which decides its colour.
#[derive(Debug, Clone, Copy, PartialEq, Eq, Structural)]
pub enum Ink {
    Date,
    BodyWeight,
    Exercise,
    Weight,
    Reps,
    Sets,
}

impl Ink {
    /// The red, green and blue parts of the colour.
    pub open spec fn rgb(self) -> (u8, u8, u8) {
        match self {
            Ink::Date => (157u8, 78u8, 221u8),
            Ink::BodyWeight => (58u8, 134u8, 255u8),
            Ink::Exercise => (0u8, 150u8, 255u8),
            Ink::Weight => (255u8, 121u8, 0u8),
            Ink::Reps => (0u8, 187u8, 249u8),
            Ink::Sets => (241u8, 91u8, 181u8),
        }
    }

    fn parts(self) -> (c: (u8, u8, u8))
        ensures
            c == self.rgb(),
    {
        match self {
            Ink::Date => (157, 78, 221),
            Ink::BodyWeight => (58, 134, 255),
            Ink::Exercise => (0, 150, 255),
            Ink::Weight => (255, 121, 0),
            Ink::Reps => (0, 187, 249),
            Ink::Sets => (241, 91, 181),
        }
    }
}

/// `text` between the escape sequence that sets the foreground colour and the
/// one that resets it.
pub open spec fn painted(rgb: (u8, u8, u8), text: Seq<char>) -> Seq<char> {
    "\x1B[38;2;"@ + decimal(rgb.0 as nat) + ";"@ + decimal(rgb.1 as nat) + ";"@ + decimal(
        rgb.2 as nat,
    ) + "m"@ + text + "\x1B[0m"@
}

/// `text` as it is put out: painted where colour is on, bare where it is off.
pub open spec fn tinted(ink: Ink, text: Seq<char>, color: bool) -> Seq<char> {
    if color {
        painted(ink.rgb(), text)
    } else {
        text
    }
}

/// `ansi_term::Colour::RGB(r, g, b).paint(text)`, written to a string. The
/// crate writes the prefix `ESC [ 38 ; 2 ; r ; g ; b m`, with the three numbers
/// in decimal, then the text, then the reset sequence `ESC [ 0 m`.
#[verifier::external_body]
fn paint_rgb(r: u8, g: u8, b: u8, text: &str) -> (s: String)
    ensures
        s@ == painted((r, g, b), text@),
{
    ansi_term::Colour::RGB(r, g, b).paint(text).to_string()
}

/// `text` in the colour of `ink`, or unchanged where `color` is off.
pub fn tint(text: &str, ink: Ink, color: bool) -> (s: String)
    ensures
        s@ == tinted(ink, text@, color),
{
    if color {
        let (r, g, b) = ink.parts();
        paint_rgb(r, g, b, text)
    } else {
        text.to_owned()
    }
}

/// A date label as it is put out.
pub fn color_date(s: &str, color: bool) -> (out: String)
    ensures
        out@ == tinted(Ink::Date, s@, color),
{
    tint(s, Ink::Date, color)
}

/// A body weight as it is put out.
pub fn color_bw(s: &str, color: bool) -> (out: String)
    ensures
        out@ == tinted(Ink::BodyWeight, s@, color),
{
    tint(s, Ink::BodyWeight, color)
}

/// `num / den` rounded to the nearest whole number; a value halfway between
/// two whole numbers goes to the even one.
pub open spec fn round_half_even(num: nat, den: nat) -> nat
    recommends
        den > 0,
{
    let q = num / den;
    let r = num % den;
    if 2 * r < den {
        q
    } else if 2 * r > den {
        q + 1
    } else if q % 2 == 0 {
        q
    } else {
        q + 1
    }
}

/// The whole number shown for a weight of `grams`: in pounds (2.20462 to the
/// kilogram) where `lb` is set, in kilograms otherwise.
pub open spec fn shown_weight(grams: nat, lb: bool) -> nat {
    if lb {
        round_half_even(grams * 220462, 100_000_000)
    } else {
        round_half_even(grams, 1000)
    }
}

/// The text shown for a weight.
pub open spec fn weight_text(grams: nat, lb: bool) -> Seq<char> {
    decimal(shown_weight(grams, lb))
}

fn rounded(num: u64, den: u64) -> (q: u64)
    requires
        den > 0,
        num / den < u64::MAX,
        den <= u64::MAX / 2,
    ensures
        q == round_half_even(num as nat, den as nat),
{
    let q = num / den;
    let r = num % den;
    if 2 * r < den {
        q
    } else if 2 * r > den {
        q + 1
    } else if q % 2 == 0 {
        q
    } else {
        q + 1
    }
}

fn weight_number(w: u32, lb: bool) -> (n: u64)
    ensures
        n == shown_weight(w as nat, lb),
{
    if lb {
        rounded(w as u64 * 220462, 100_000_000)
    } else {
        rounded(w as u64, 1000)
    }
}

/// The text shown for a weight of `w` grams: the weight in pounds where `lb` is
/// set and in kilograms otherwise, rounded to a whole number.
pub fn format_weight(w: u32, lb: bool) -> (s: String)
    ensures
        s@ == weight_text(w as nat, lb),
{
    let mut s = String::new();
    push_decimal(&mut s, weight_number(w, lb));
    assert(s@ =~= weight_text(w as nat, lb));
    s
}

/// The digits after the decimal point of `f` thousandths, with the point
/// before them and without zeros at the end; nothing where `f` is 0.
pub open spec fn fraction_text(f: nat) -> Seq<char>
    recommends
        f < 1000,
{
    if f == 0 {
        Seq::empty()
    } else if f % 100 == 0 {
        seq!['.', digit_char((f / 100) as int)]
    } else if f % 10 == 0 {
        seq!['.', digit_char((f / 100) as int), digit_char((f / 10 % 10) as int)]
    } else {
        seq![
            '.',
            digit_char((f / 100) as int),
            digit_char((f / 10 % 10) as int),
            digit_char((f % 10) as int),
        ]
    }
}

/// The text shown for a perceived effort of `rpe` thousandths: 8000 is shown as
/// `8`, 8500 as `8.5`.
pub open spec fn effort_text(rpe: nat) -> Seq<char> {
    decimal(rpe / 1000) + fraction_text(rpe % 1000)
}

/// What a line says of the perceived effort: nothing where it is 0.
pub open spec fn effort_suffix(rpe: nat) -> Seq<char> {
    if rpe > 0 {
        " @"@ + effort_text(rpe)
    } else {
        Seq::empty()
    }
}

fn push_digit(out: &mut String, d: u32)
    requires
        d < 10,
    ensures
        final(out)@ == old(out)@.push(digit_char(d as int)),
{
    push_char(out, (48 + d as u8) as char);
}

fn push_effort_suffix(out: &mut String, rpe: u32)
    ensures
        final(out)@ == old(out)@ + effort_suffix(rpe as nat),
{
    if rpe > 0 {
        out.append(" @");
        push_decimal(out, (rpe / 1000) as u64);
        let f = rpe % 1000;
        if f != 0 {
            push_char(out, '.');
            push_digit(out, f / 100);
            if f % 100 != 0 {
                push_digit(out, f / 10 % 10);
                if f % 10 != 0 {
                    push_digit(out, f % 10);
                }
            }
        }
    }
    assert(out@ =~= old(out)@ + effort_suffix(rpe as nat));
}

/// What a line says of the repetitions: nothing where there are none.
pub open spec fn reps_part(reps: nat, color: bool) -> Seq<char> {
    if reps > 0 {
        " x "@ + tinted(Ink::Reps, decimal(reps), color)
    } else {
        Seq::empty()
    }
}

/// What a line says of the number of identical sets: nothing where it is 1.
pub open spec fn mult_part(mult: nat, color: bool) -> Seq<char> {
    if mult > 1 {
        " x "@ + tinted(Ink::Sets, decimal(mult), color)
    } else {
        Seq::empty()
    }
}

/// What a line says of the comment: nothing where it is empty.
pub open spec fn comment_part(comment: Seq<char>) -> Seq<char> {
    if comment.len() > 0 {
        " "@ + comment
    } else {
        Seq::empty()
    }
}

/// The line for one set: the weight, then the repetitions, the number of
/// identical sets, the perceived effort and the comment, each where there is
/// one.
pub open spec fn set_line(s: LoggedSetView, color: bool) -> Seq<char> {
    tinted(Ink::Weight, weight_text(s.weight, s.lb), color) + reps_part(s.reps, color) + mult_part(
        s.mult,
        color,
    ) + effort_suffix(s.rpe) + comment_part(s.comment)
}

fn tinted_weight(w: u32, lb: bool, color: bool) -> (s: String)
    ensures
        s@ == tinted(Ink::Weight, weight_text(w as nat, lb), color),
{
    let plain = format_weight(w, lb);
    tint(plain.as_str(), Ink::Weight, color)
}

fn tinted_number(n: u32, ink: Ink, color: bool) -> (s: String)
    ensures
        s@ == tinted(ink, decimal(n as nat), color),
{
    let plain = crate::text::decimal_string(n as u64);
    tint(plain.as_str(), ink, color)
}

/// The line for one set.
pub fn format_set(set: &LoggedSet, color: bool) -> (line: String)
    ensures
        line@ == set_line(set@, color),
{
    let r = set.reps();
    let s = set.mult();
    let mut line = tinted_weight(set.weight(), set.is_lb(), color);
    let ghost weight_part = line@;
    if r > 0 {
        line.append(" x ");
        let reps = tinted_number(r, Ink::Reps, color);
        line.append(reps.as_str());
    }
    assert(line@ =~= weight_part + reps_part(set@.reps, color));
    let ghost with_reps = line@;
    if s > 1 {
        line.append(" x ");
        let sets = tinted_number(s, Ink::Sets, color);
        line.append(sets.as_str());
    }
    assert(line@ =~= with_reps + mult_part(set@.mult, color));
    push_effort_suffix(&mut line, set.effort());
    let ghost with_effort = line@;
    match &set.c {
        Some(c) => {
            if !c.as_str().is_empty() {
                line.append(" ");
                line.append(c.as_str());
            }
        },
        None => {},
    }
    assert(line@ =~= with_effort + comment_part(set@.comment));
    line
}

/// The views of a run of sets.
pub open spec fn set_views(sets: Seq<LoggedSet>) -> Seq<LoggedSetView> {
    sets.map_values(|s: LoggedSet| s@)
}

/// Whether `next` can go on a run of equal weights that `first` began: it is an
/// ordinary set with the weight, effort, unit and number of sets of `first`.
pub open spec fn same_weight(first: LoggedSetView, next: LoggedSetView) -> bool {
    &&& !next.special
    &&& next.weight == first.weight
    &&& next.rpe == first.rpe
    &&& next.lb == first.lb
    &&& next.mult == first.mult
}

/// Whether `next` can go on a run of equal repetitions that `first` began.
pub open spec fn same_reps(first: LoggedSetView, next: LoggedSetView) -> bool {
    &&& !next.special
    &&& next.reps == first.reps
    &&& next.rpe == first.rpe
    &&& next.lb == first.lb
    &&& next.mult == first.mult
}

/// Whether the set at `j` goes on the run that the set at `i` began.
pub open spec fn goes_on(sets: Seq<LoggedSetView>, i: int, j: int, by_weight: bool) -> bool {
    if by_weight {
        same_weight(sets[i], sets[j])
    } else {
        same_reps(sets[i], sets[j])
    }
}

/// Where the run that began at `i` ends, as seen from `j`: the first place from
/// `j` on whose set does not go on the run, or the end of the sets.
pub open spec fn run_end(sets: Seq<LoggedSetView>, i: int, j: int, by_weight: bool) -> int
    decreases sets.len() - j,
{
    if 0 <= j < sets.len() && goes_on(sets, i, j, by_weight) {
        run_end(sets, i, j + 1, by_weight)
    } else {
        j
    }
}

/// How the set at `i` is put on a line, where a line begins with it.
pub enum Grouping {
    /// Alone on its line.
    Alone,
    /// With the sets of equal weight that follow it.
    ByWeight,
    /// With the sets of equal repetitions that follow it.
    ByReps,
}

/// A special set stands alone. An ordinary set is grouped with the sets of
/// equal weight that follow it; where there are none, with the sets of equal
/// repetitions that follow it; where there are none either, it stands alone.
pub open spec fn grouping(sets: Seq<LoggedSetView>, i: int) -> Grouping {
    if sets[i].special {
        Grouping::Alone
    } else if run_end(sets, i, i + 1, true) > i + 1 {
        Grouping::ByWeight
    } else if run_end(sets, i, i + 1, false) > i + 1 {
        Grouping::ByReps
    } else {
        Grouping::Alone
    }
}

/// The place after the last set of the line that begins at `i`.
pub open spec fn group_end(sets: Seq<LoggedSetView>, i: int) -> int {
    match grouping(sets, i) {
        Grouping::Alone => i + 1,
        Grouping::ByWeight => run_end(sets, i, i + 1, true),
        Grouping::ByReps => run_end(sets, i, i + 1, false),
    }
}

/// The repetitions of the sets from `i` up to `j`, each as it is put out.
pub open spec fn reps_texts(sets: Seq<LoggedSetView>, i: int, j: int, color: bool) -> Seq<
    Seq<char>,
> {
    Seq::new((j - i) as nat, |k: int| tinted(Ink::Reps, decimal(sets[i + k].reps), color))
}

/// The weights of the sets from `i` up to `j`, each as it is put out, in the
/// unit of the set at `i`.
pub open spec fn weight_texts(sets: Seq<LoggedSetView>, i: int, j: int, color: bool) -> Seq<
    Seq<char>,
> {
    Seq::new(
        (j - i) as nat,
        |k: int| tinted(Ink::Weight, weight_text(sets[i + k].weight, sets[i].lb), color),
    )
}

/// The line for a run of equal weights from `i` up to `j`: the weight once,
/// then the repetitions in order, then the effort once.
pub open spec fn weight_run_line(sets: Seq<LoggedSetView>, i: int, j: int, color: bool) -> Seq<
    char,
> {
    tinted(Ink::Weight, weight_text(sets[i].weight, sets[i].lb), color) + " x "@ + join(
        reps_texts(sets, i, j, color),
        ", "@,
    ) + effort_suffix(sets[i].rpe)
}

/// The line for a run of equal repetitions from `i` up to `j`: the weights in
/// order, then the repetitions once, then the effort once.
pub open spec fn reps_run_line(sets: Seq<LoggedSetView>, i: int, j: int, color: bool) -> Seq<
    char,
> {
    join(weight_texts(sets, i, j, color), ", "@) + " x "@ + tinted(
        Ink::Reps,
        decimal(sets[i].reps),
        color,
    ) + effort_suffix(sets[i].rpe)
}

/// The line that begins with the set at `i`.
pub open spec fn group_line(sets: Seq<LoggedSetView>, i: int, color: bool) -> Seq<char> {
    match grouping(sets, i) {
        Grouping::Alone => set_line(sets[i], color),
        Grouping::ByWeight => weight_run_line(sets, i, group_end(sets, i), color),
        Grouping::ByReps => reps_run_line(sets, i, group_end(sets, i), color),
    }
}

/// A run ends at or after the place from which it is looked for, and within
/// the sets.
pub proof fn run_end_bounds(sets: Seq<LoggedSetView>, i: int, j: int, by_weight: bool)
    requires
        0 <= j <= sets.len(),
    ensures
        j <= run_end(sets, i, j, by_weight) <= sets.len(),
    decreases sets.len() - j,
{
    if j < sets.len() && goes_on(sets, i, j, by_weight) {
        run_end_bounds(sets, i, j + 1, by_weight);
    }
}

/// The line that begins at `i` holds at least the set at `i`, and ends within
/// the sets.
pub proof fn group_end_bounds(sets: Seq<LoggedSetView>, i: int)
    requires
        0 <= i < sets.len(),
    ensures
        i < group_end(sets, i) <= sets.len(),
{
    run_end_bounds(sets, i, i + 1, true);
    run_end_bounds(sets, i, i + 1, false);
}

/// The lines for the sets from `i` on.
pub open spec fn compressed_from(sets: Seq<LoggedSetView>, i: int, color: bool) -> Seq<Seq<char>>
    decreases sets.len() - i,
    via compressed_from_decreases
{
    if 0 <= i < sets.len() {
        seq![group_line(sets, i, color)] + compressed_from(sets, group_end(sets, i), color)
    } else {
        Seq::empty()
    }
}

#[via_fn]
proof fn compressed_from_decreases(sets: Seq<LoggedSetView>, i: int, color: bool) {
    if 0 <= i < sets.len() {
        group_end_bounds(sets, i);
    }
}

/// The lines for a run of sets: each set is on one line, and the lines are in
/// the order of the sets.
pub open spec fn compressed(sets: Seq<LoggedSetView>, color: bool) -> Seq<Seq<char>> {
    compressed_from(sets, 0, color)
}

fn continues_run(first: &LoggedSet, next: &LoggedSet, by_weight: bool) -> (b: bool)
    ensures
        b == if by_weight {
            same_weight(first@, next@)
        } else {
            same_reps(first@, next@)
        },
{
    let same_quantity = if by_weight {
        next.weight() == first.weight()
    } else {
        next.reps() == first.reps()
    };
    !next.is_special() && same_quantity && next.effort() == first.effort() && next.is_lb()
        == first.is_lb() && next.mult() == first.mult()
}

/// Looks for the end of the run that the set at `i` begins, and gathers what
/// the line lists of each set of the run: its repetitions in a run of equal
/// weights, its weight in a run of equal repetitions.
fn scan_run(sets: &[LoggedSet], i: usize, by_weight: bool, color: bool) -> (run: (
    usize,
    Vec<String>,
))
    requires
        i < sets@.len(),
    ensures
        run.0 == run_end(set_views(sets@), i as int, i + 1, by_weight),
        i < run.0 <= sets@.len(),
        views(run.1@) == if by_weight {
            reps_texts(set_views(sets@), i as int, run.0 as int, color)
        } else {
            weight_texts(set_views(sets@), i as int, run.0 as int, color)
        },
{
    let ghost sv = set_views(sets@);
    let first = &sets[i];
    let lb = first.is_lb();
    let mut parts: Vec<String> = Vec::new();
    if by_weight {
        parts.push(tinted_number(first.reps(), Ink::Reps, color));
    } else {
        parts.push(tinted_weight(first.weight(), lb, color));
    }
    let mut j: usize = i + 1;
    assert(views(parts@) =~= if by_weight {
        reps_texts(sv, i as int, j as int, color)
    } else {
        weight_texts(sv, i as int, j as int, color)
    });
    while j < sets.len() && continues_run(first, &sets[j], by_weight)
        invariant
            i < j <= sets@.len(),
            sv == set_views(sets@),
            *first == sets@[i as int],
            lb == sv[i as int].lb,
            run_end(sv, i as int, i + 1, by_weight) == run_end(sv, i as int, j as int, by_weight),
            views(parts@) == if by_weight {
                reps_texts(sv, i as int, j as int, color)
            } else {
                weight_texts(sv, i as int, j as int, color)
            },
        decreases sets@.len() - j,
    {
        let ghost listed = views(parts@);
        assert(sv[j as int] == sets@[j as int]@);
        if by_weight {
            parts.push(tinted_number(sets[j].reps(), Ink::Reps, color));
        } else {
            parts.push(tinted_weight(sets[j].weight(), lb, color));
        }
        assert(views(parts@) =~= listed.push(parts@[parts@.len() - 1]@));
        j += 1;
        assert(views(parts@) =~= if by_weight {
            reps_texts(sv, i as int, j as int, color)
        } else {
            weight_texts(sv, i as int, j as int, color)
        });
    }
    (j, parts)
}

/// The lines for a run of sets, in the order of the sets.
///
/// A set of a special type has a line of its own. An ordinary set shares its
/// line with the ordinary sets that follow it directly and have its weight,
/// effort, unit and number of sets; where none does, with those that have its
/// repetitions, effort, unit and number of sets. A field that a set does not
/// give counts as its default in these comparisons.
pub fn compress_sets(sets: &[LoggedSet], color: bool) -> (lines: Vec<String>)
    ensures
        views(lines@) == compressed(set_views(sets@), color),
{
    let ghost sv = set_views(sets@);
    let mut lines: Vec<String> = Vec::new();
    let mut i: usize = 0;
    assert(views(lines@) + compressed_from(sv, 0, color) =~= compressed(sv, color));
    while i < sets.len()
        invariant
            i <= sets@.len(),
            sv == set_views(sets@),
            views(lines@) + compressed_from(sv, i as int, color) == compressed(sv, color),
        decreases sets@.len() - i,
    {
        let set = &sets[i];
        let ghost before = views(lines@);
        let ghost line_text = group_line(sv, i as int, color);
        let ghost end = group_end(sv, i as int);
        proof {
            group_end_bounds(sv, i as int);
        }
        let mut next: usize = i + 1;
        let mut grouped = false;
        if !set.is_special() {
            let (by_weight_end, reps) = scan_run(sets, i, true, color);
            if by_weight_end > i + 1 {
                let mut line = tinted_weight(set.weight(), set.is_lb(), color);
                line.append(" x ");
                let listed = join_strings(&reps, ", ");
                line.append(listed.as_str());
                push_effort_suffix(&mut line, set.effort());
                assert(line@ =~= line_text);
                lines.push(line);
                next = by_weight_end;
                grouped = true;
            } else {
                let (by_reps_end, weights) = scan_run(sets, i, false, color);
                if by_reps_end > i + 1 {
                    let mut line = join_strings(&weights, ", ");
                    line.append(" x ");
                    let reps_text = tinted_number(set.reps(), Ink::Reps, color);
                    line.append(reps_text.as_str());
                    push_effort_suffix(&mut line, set.effort());
                    assert(line@ =~= line_text);
                    lines.push(line);
                    next = by_reps_end;
                    grouped = true;
                }
            }
        }
        if !grouped {
            lines.push(format_set(set, color));
        }
        proof {
            assert(next == end);
            assert(views(lines@) =~= before.push(line_text));
            assert(views(lines@) + compressed_from(sv, end, color) =~= before + compressed_from(
                sv,
                i as int,
                color,
            ));
        }
        i = next;
    }
    assert(views(lines@) =~= compressed(sv, color));
    lines
}

/// The exercise that `eid` names in a roster: the last one with that id.
pub open spec fn exercise_for(roster: Seq<ExerciseView>, eid: Seq<char>) -> Option<ExerciseView>
    decreases roster.len(),
{
    if roster.len() == 0 {
        None
    } else if roster.last().id == eid {
        Some(roster.last())
    } else {
        exercise_for(roster.drop_last(), eid)
    }
}

/// The lines for one block: the exercise's name after a `#`, then the lines
/// for its sets; nothing where the roster lacks the exercise.
pub open spec fn block_lines(roster: Seq<ExerciseView>, block: EBlockView, color: bool) -> Seq<
    Seq<char>,
> {
    match exercise_for(roster, block.eid) {
        Some(ex) => seq!["#"@ + tinted(Ink::Exercise, ex.name, color)] + compressed(
            block.sets,
            color,
        ),
        None => Seq::empty(),
    }
}

/// The lines for a run of blocks, in the order of the blocks.
pub open spec fn blocks_lines(roster: Seq<ExerciseView>, blocks: Seq<EBlockView>, color: bool) -> Seq<
    Seq<char>,
>
    decreases blocks.len(),
{
    if blocks.len() == 0 {
        Seq::empty()
    } else {
        blocks_lines(roster, blocks.drop_last(), color) + block_lines(roster, blocks.last(), color)
    }
}

/// The text for the blocks of a day: their lines, one below the other.
pub open spec fn eblocks_text(day: JDayView, color: bool) -> Seq<char> {
    join(blocks_lines(day.exercises, day.eblocks, color), "\n"@)
}

/// The views of a roster.
pub open spec fn roster_views(roster: Seq<ExerciseWrapper>) -> Seq<ExerciseView> {
    roster.map_values(|e: ExerciseWrapper| e@)
}

fn find_exercise<'a>(roster: &'a Vec<ExerciseWrapper>, eid: &String) -> (found: Option<
    &'a Exercise,
>)
    ensures
        match exercise_for(roster_views(roster@), eid@) {
            Some(ex) => found matches Some(e) && e@ == ex,
            None => found is None,
        },
{
    let ghost all = roster_views(roster@);
    let mut k: usize = roster.len();
    assert(all.subrange(0, k as int) =~= all);
    while k > 0
        invariant
            k <= roster@.len(),
            all == roster_views(roster@),
            exercise_for(all, eid@) == exercise_for(all.subrange(0, k as int), eid@),
        decreases k,
    {
        let ghost upto = all.subrange(0, k as int);
        k -= 1;
        assert(upto.drop_last() =~= all.subrange(0, k as int));
        assert(upto.last() == roster@[k as int]@);
        if roster[k].exercise.id == *eid {
            return Some(&roster[k].exercise);
        }
    }
    None
}

/// The text for the blocks of a day.
///
/// Each block whose exercise is in the day's roster gives a line with `#` and
/// the exercise's name, and below it the lines for its sets. Where two
/// exercises of the roster have one id, the later one counts. A block whose
/// exercise the roster lacks gives nothing.
pub fn format_eblocks(jday: &JDay, color: bool) -> (out: String)
    ensures
        out@ == eblocks_text(jday@, color),
{
    let ghost day = jday@;
    let mut lines: Vec<String> = Vec::new();
    let mut k: usize = 0;
    while k < jday.eblocks.len()
        invariant
            k <= jday.eblocks@.len(),
            day == jday@,
            views(lines@) == blocks_lines(day.exercises, day.eblocks.subrange(0, k as int), color),
        decreases jday.eblocks@.len() - k,
    {
        let eblock = &jday.eblocks[k];
        let ghost before = views(lines@);
        let ghost head = day.eblocks.subrange(0, k as int);
        let ghost next = day.eblocks.subrange(0, k as int + 1);
        proof {
            assert(next.drop_last() =~= head);
            assert(next.last() == eblock@);
            assert(eblock@.sets == set_views(eblock.sets@));
        }
        match find_exercise(&jday.exercises, &eblock.eid) {
            Some(ex) => {
                let mut header = "#".to_owned();
                let name = tint(ex.name.as_str(), Ink::Exercise, color);
                header.append(name.as_str());
                lines.push(header);
                let mut set_lines = compress_sets(eblock.sets.as_slice(), color);
                let ghost with_header = lines@;
                let ghost compressed_lines = set_lines@;
                lines.append(&mut set_lines);
                assert(views(lines@) =~= before + block_lines(day.exercises, eblock@, color)) by {
                    assert(lines@ =~= with_header + compressed_lines);
                    assert(views(with_header) =~= before.push(header@));
                    assert(views(lines@) =~= views(with_header) + views(compressed_lines));
                }
            },
            None => {
                assert(views(lines@) =~= before + block_lines(day.exercises, eblock@, color));
            },
        }
        k += 1;
    }
    assert(day.eblocks.subrange(0, k as int) =~= day.eblocks);
    join_strings(&lines, "\n")
}

/// The heaviest weight among the sets; 0 where there are none.
pub open spec fn top_weight(sets: Seq<LoggedSetView>) -> nat
    decreases sets.len(),
{
    if sets.len() == 0 {
        0
    } else {
        let rest = top_weight(sets.drop_last());
        if sets.last().weight > rest {
            sets.last().weight
        } else {
            rest
        }
    }
}

/// The most repetitions among the sets of weight `w`; 0 where there are none.
pub open spec fn top_reps(sets: Seq<LoggedSetView>, w: nat) -> nat
    decreases sets.len(),
{
    if sets.len() == 0 {
        0
    } else {
        let rest = top_reps(sets.drop_last(), w);
        if sets.last().weight == w && sets.last().reps > rest {
            sets.last().reps
        } else {
            rest
        }
    }
}

/// Whether one of the sets is in pounds.
pub open spec fn any_lb(sets: Seq<LoggedSetView>) -> bool {
    exists|k: int| 0 <= k < sets.len() && sets[k].lb
}

/// What the summary says of one block: the exercise's name, then the heaviest
/// weight and the most repetitions done with it; in pounds where one of the
/// sets is. Nothing where the roster lacks the exercise or no weight was moved.
pub open spec fn block_summary(roster: Seq<ExerciseView>, block: EBlockView, color: bool) -> Option<
    Seq<char>,
> {
    match exercise_for(roster, block.eid) {
        Some(ex) => if top_weight(block.sets) > 0 {
            Some(
                "#"@ + tinted(Ink::Exercise, ex.name, color) + " "@ + tinted(
                    Ink::Weight,
                    weight_text(top_weight(block.sets), any_lb(block.sets)),
                    color,
                ) + "x"@ + tinted(
                    Ink::Reps,
                    decimal(top_reps(block.sets, top_weight(block.sets))),
                    color,
                ),
            )
        } else {
            None
        },
        None => None,
    }
}

/// What the summary says of a run of blocks, in the order of the blocks.
pub open spec fn summaries(roster: Seq<ExerciseView>, blocks: Seq<EBlockView>, color: bool) -> Seq<
    Seq<char>,
>
    decreases blocks.len(),
{
    if blocks.len() == 0 {
        Seq::empty()
    } else {
        let rest = summaries(roster, blocks.drop_last(), color);
        match block_summary(roster, blocks.last(), color) {
            Some(text) => rest.push(text),
            None => rest,
        }
    }
}

/// The summary of a day: what it says of each block, with `; ` between.
pub open spec fn summary_text(day: JDayView, color: bool) -> Seq<char> {
    join(summaries(day.exercises, day.eblocks, color), "; "@)
}

/// No set is heavier than the heaviest weight, and no set of weight `w` has
/// more repetitions than the most that were done with `w`.
pub proof fn top_bounds(sets: Seq<LoggedSetView>, w: nat)
    ensures
        forall|k: int| 0 <= k < sets.len() ==> (#[trigger] sets[k]).weight <= top_weight(sets),
        forall|k: int|
            0 <= k < sets.len() && (#[trigger] sets[k]).weight == w ==> sets[k].reps <= top_reps(
                sets,
                w,
            ),
        w > top_weight(sets) ==> top_reps(sets, w) == 0,
    decreases sets.len(),
{
    if sets.len() > 0 {
        let rest = sets.drop_last();
        top_bounds(rest, w);
        assert forall|k: int| 0 <= k < sets.len() implies (#[trigger] sets[k]).weight
            <= top_weight(sets) by {
            if k < rest.len() {
                assert(rest[k] == sets[k]);
            }
        }
        assert forall|k: int| 0 <= k < sets.len() && (#[trigger] sets[k]).weight
            == w implies sets[k].reps <= top_reps(sets, w) by {
            if k < rest.len() {
                assert(rest[k] == sets[k]);
            }
        }
    }
}

/// The heaviest set of a block: its weight and repetitions, and whether one of
/// the block's sets is in pounds.
fn heaviest(sets: &Vec<LoggedSet>) -> (top: (u32, u32, bool))
    ensures
        top.0 == top_weight(set_views(sets@)),
        top.1 == top_reps(set_views(sets@), top.0 as nat),
        top.2 == any_lb(set_views(sets@)),
{
    let ghost sv = set_views(sets@);
    let mut max_weight: u32 = 0;
    let mut max_reps: u32 = 0;
    let mut lb = false;
    let mut k: usize = 0;
    while k < sets.len()
        invariant
            k <= sets@.len(),
            sv == set_views(sets@),
            max_weight == top_weight(sv.subrange(0, k as int)),
            max_reps == top_reps(sv.subrange(0, k as int), max_weight as nat),
            lb == any_lb(sv.subrange(0, k as int)),
        decreases sets@.len() - k,
    {
        let ghost head = sv.subrange(0, k as int);
        let ghost next = sv.subrange(0, k as int + 1);
        let w = sets[k].weight();
        let r = sets[k].reps();
        proof {
            assert(next.drop_last() =~= head);
            assert(next.last() == sets@[k as int]@);
            top_bounds(head, w as nat);
            if any_lb(head) {
                let m = choose|m: int| 0 <= m < head.len() && head[m].lb;
                assert(next[m].lb);
            }
            if any_lb(next) && !next.last().lb {
                let m = choose|m: int| 0 <= m < next.len() && next[m].lb;
                assert(head[m].lb);
            }
        }
        if w > max_weight || (w == max_weight && r > max_reps) {
            max_weight = w;
            max_reps = r;
        }
        if sets[k].is_lb() {
            lb = true;
        }
        k += 1;
    }
    assert(sv.subrange(0, k as int) =~= sv);
    (max_weight, max_reps, lb)
}

/// The summary of a day.
///
/// Each block whose exercise is in the day's roster, and in which a weight
/// above 0 was moved, gives `#`, the exercise's name, the heaviest weight of the
/// block and the most repetitions done with that weight. The weight is shown in
/// pounds where one of the block's sets is in pounds.
pub fn summarize_workout(jday: &JDay, color: bool) -> (out: String)
    ensures
        out@ == summary_text(jday@, color),
{
    let ghost day = jday@;
    let mut parts: Vec<String> = Vec::new();
    let mut k: usize = 0;
    while k < jday.eblocks.len()
        invariant
            k <= jday.eblocks@.len(),
            day == jday@,
            views(parts@) == summaries(day.exercises, day.eblocks.subrange(0, k as int), color),
        decreases jday.eblocks@.len() - k,
    {
        let eblock = &jday.eblocks[k];
        let ghost before = views(parts@);
        let ghost head = day.eblocks.subrange(0, k as int);
        let ghost next = day.eblocks.subrange(0, k as int + 1);
        proof {
            assert(next.drop_last() =~= head);
            assert(next.last() == eblock@);
            assert(eblock@.sets == set_views(eblock.sets@));
        }
        match find_exercise(&jday.exercises, &eblock.eid) {
            Some(ex) => {
                let (max_weight, max_reps, lb) = heaviest(&eblock.sets);
                if max_weight > 0 {
                    let mut text = "#".to_owned();
                    let name = tint(ex.name.as_str(), Ink::Exercise, color);
                    text.append(name.as_str());
                    text.append(" ");
                    let weight = tinted_weight(max_weight, lb, color);
                    text.append(weight.as_str());
                    text.append("x");
                    let reps = tinted_number(max_reps, Ink::Reps, color);
                    text.append(reps.as_str());
                    assert(Some(text@) == block_summary(day.exercises, eblock@, color));
                    parts.push(text);
                    assert(views(parts@) =~= before.push(text@));
                }
            },
            None => {},
        }
        assert(views(parts@) == summaries(day.exercises, next, color));
        k += 1;
    }
    assert(day.eblocks.subrange(0, k as int) =~= day.eblocks);
    join_strings(&parts, "; ")
}

/// The pattern of the markers that stand for the blocks in a day's log.
pub open spec fn marker_pattern() -> Seq<char> {
    "EBLOCK:\\d+"@
}

/// The pieces into which the matches of a regular expression cut a text: what
/// stands before the first match, between each two matches, and after the
/// last.
pub uninterp spec fn regex_pieces(pattern: Seq<char>, text: Seq<char>) -> Seq<Seq<char>>;

/// `regex::Regex::split`, with the expression compiled from `pattern`: the
/// parts of `text` that no match covers, in order. The pattern is the one of
/// the block markers, which the crate compiles.
#[verifier::external_body]
fn split_at_matches(pattern: &str, text: &str) -> (pieces: Vec<String>)
    requires
        pattern@ == marker_pattern(),
    ensures
        views(pieces@) == regex_pieces(pattern@, text@),
{
    regex::Regex::new(pattern).unwrap().split(text).map(|piece| piece.to_owned()).collect()
}

/// What is put in the place of each marker: the text of the blocks on lines of
/// its own.
pub open spec fn marker_filling(blocks: Seq<char>) -> Seq<char> {
    "\n"@ + blocks + "\n"@
}

/// The log of which `pieces` are the text around the markers, with the text of
/// the blocks in the place of each marker.
pub fn fill_markers(pieces: &Vec<String>, blocks: &str) -> (out: String)
    ensures
        out@ == join(views(pieces@), marker_filling(blocks@)),
{
    let mut filling = "\n".to_owned();
    filling.append(blocks);
    filling.append("\n");
    join_strings(pieces, filling.as_str())
}

/// The text of a day: its log, with the text of all the day's blocks in the
/// place of each marker.
pub open spec fn workout_text(day: JDayView, color: bool) -> Seq<char> {
    join(regex_pieces(marker_pattern(), day.log), marker_filling(eblocks_text(day, color)))
}

/// The text of a day.
///
/// A marker is `EBLOCK:` with digits after it. Each marker of the log gives way
/// to the text of all the day's blocks, as `format_eblocks` gives it, on lines
/// of its own; the rest of the log stays as it is.
pub fn format_workout(jday: &JDay, color: bool) -> (out: String)
    ensures
        out@ == workout_text(jday@, color),
{
    let blocks = format_eblocks(jday, color);
    let pieces = split_at_matches("EBLOCK:\\d+", jday.log.as_str());
    fill_markers(&pieces, blocks.as_str())
}

/// Whether the user has weights shown in kilograms, which is so unless the
/// service says otherwise.
pub open spec fn uses_kg(user: User) -> bool {
    match user.usekg {
        Some(flag) => flag == 1,
        None => true,
    }
}

/// A day as it is shown: the date, the body weight in the user's unit, and the
/// text of the day.
pub open spec fn rendered(date: Seq<char>, day: JDayView, user: User, color: bool) -> Seq<char> {
    tinted(Ink::Date, date, color) + "\n@ "@ + tinted(
        Ink::BodyWeight,
        weight_text(day.bw, !uses_kg(user)),
        color,
    ) + " bw\n"@ + workout_text(day, color)
}

/// A day as it is shown: a line with the date, a line with the body weight in
/// the user's unit, and the text of the day.
pub fn render_workout(date: &str, jday: &JDay, user: &User, color: bool) -> (out: String)
    ensures
        out@ == rendered(date@, jday@, *user, color),
{
    let bw = match jday.bw {
        Some(bw) => bw,
        None => 0,
    };
    let kg = match user.usekg {
        Some(flag) => flag == 1,
        None => true,
    };
    let mut out = color_date(date, color);
    out.append("\n@ ");
    let shown = format_weight(bw, !kg);
    let body_weight = color_bw(shown.as_str(), color);
    out.append(body_weight.as_str());
    out.append(" bw\n");
    let text = format_workout(jday, color);
    out.append(text.as_str());
    out
}

/// The places at which the lines for the sets from `i` on begin.
pub open spec fn line_starts(sets: Seq<LoggedSetView>, i: int) -> Seq<int>
    decreases sets.len() - i,
    via line_starts_decreases
{
    if 0 <= i < sets.len() {
        seq![i] + line_starts(sets, group_end(sets, i))
    } else {
        Seq::empty()
    }
}

#[via_fn]
proof fn line_starts_decreases(sets: Seq<LoggedSetView>, i: int) {
    if 0 <= i < sets.len() {
        group_end_bounds(sets, i);
    }
}

/// Where the line `k` of the lines from `i` on ends: where the next line
/// begins, or at the end of the sets.
pub open spec fn line_end(sets: Seq<LoggedSetView>, i: int, k: int) -> int {
    if k + 1 < line_starts(sets, i).len() {
        line_starts(sets, i)[k + 1]
    } else {
        sets.len() as int
    }
}

/// Each set is on one line. The lines from `i` on are as many as the places at
/// which they begin; the first begins at `i`, each holds the sets from its
/// place up to the place of the next, and the last ends with the last set. No
/// set is left out and none is on two lines.
pub proof fn lines_tile_the_sets(sets: Seq<LoggedSetView>, i: int, color: bool)
    requires
        0 <= i <= sets.len(),
    ensures
        compressed_from(sets, i, color).len() == line_starts(sets, i).len(),
        i < sets.len() ==> line_starts(sets, i).len() > 0 && line_starts(sets, i)[0] == i,
        forall|k: int|
            0 <= k < line_starts(sets, i).len() ==> {
                let at = #[trigger] line_starts(sets, i)[k];
                &&& i <= at < sets.len()
                &&& at < line_end(sets, i, k) <= sets.len()
                &&& line_end(sets, i, k) == group_end(sets, at)
                &&& compressed_from(sets, i, color)[k] == group_line(sets, at, color)
            },
    decreases sets.len() - i,
{
    if i < sets.len() {
        let next = group_end(sets, i);
        group_end_bounds(sets, i);
        lines_tile_the_sets(sets, next, color);
        let starts = line_starts(sets, i);
        let rest = line_starts(sets, next);
        assert(starts =~= seq![i] + rest);
        assert forall|k: int| 0 <= k < starts.len() implies {
            let at = #[trigger] starts[k];
            &&& i <= at < sets.len()
            &&& at < line_end(sets, i, k) <= sets.len()
            &&& line_end(sets, i, k) == group_end(sets, at)
            &&& compressed_from(sets, i, color)[k] == group_line(sets, at, color)
        } by {
            if k > 0 {
                assert(starts[k] == rest[k - 1]);
                assert(line_end(sets, i, k) == line_end(sets, next, k - 1));
            } else if rest.len() > 0 {
                assert(starts[1] == rest[0]);
            }
        }
    }
}

/// The heaviest weight of a block in which a weight was moved is the weight of
/// one of its sets, and the repetitions shown with it are those of such a set.
pub proof fn top_is_attained(sets: Seq<LoggedSetView>)
    requires
        top_weight(sets) > 0,
    ensures
        exists|k: int|
            0 <= k < sets.len() && (#[trigger] sets[k]).weight == top_weight(sets) && sets[k].reps
                == top_reps(sets, top_weight(sets)),
    decreases sets.len(),
{
    let rest = sets.drop_last();
    let last = sets.last();
    let w = top_weight(sets);
    top_bounds(rest, w);
    if last.weight == w && last.reps >= top_reps(rest, w) {
        assert(sets[sets.len() - 1].weight == w);
    } else {
        assert(top_weight(rest) == w);
        top_is_attained(rest);
        let k = choose|k: int|
            0 <= k < rest.len() && (#[trigger] rest[k]).weight == w && rest[k].reps == top_reps(
                rest,
                w,
            );
        assert(sets[k] == rest[k]);
    }
}

/// A block is left out of the summary exactly where the roster lacks its
/// exercise or none of its sets has a weight above 0.
pub proof fn summary_skips_idle_blocks(
    roster: Seq<ExerciseView>,
    block: EBlockView,
    color: bool,
)
    ensures
        block_summary(roster, block, color) is None <==> (exercise_for(roster, block.eid) is None
            || forall|k: int| 0 <= k < block.sets.len() ==> (#[trigger] block.sets[k]).weight == 0),
{
    top_bounds(block.sets, 0);
    if top_weight(block.sets) > 0 {
        top_is_attained(block.sets);
    }
}

/// In the text of a day each piece of the log around the markers stands
/// unchanged in its place, and in the place of each marker stands the same
/// text: that of all the day's blocks.
pub proof fn markers_are_filled_alike(day: JDayView, color: bool, k: int)
    requires
        0 <= k < regex_pieces(marker_pattern(), day.log).len(),
    ensures
        ({
            let pieces = regex_pieces(marker_pattern(), day.log);
            let filling = marker_filling(eblocks_text(day, color));
            let out = workout_text(day, color);
            let at = part_offset(pieces, filling, k);
            &&& 0 <= at
            &&& at + pieces[k].len() <= out.len()
            &&& out.subrange(at, at + pieces[k].len()) == pieces[k]
            &&& k + 1 < pieces.len() ==> out.subrange(
                at + pieces[k].len(),
                at + pieces[k].len() + filling.len(),
            ) == filling
        }),
{
    let pieces = regex_pieces(marker_pattern(), day.log);
    let filling = marker_filling(eblocks_text(day, color));
    crate::text::join_layout(pieces, filling, k);
    if k + 1 < pieces.len() {
        crate::text::join_layout(pieces, filling, k + 1);
    }
}

/// What is shown of a day depends on nothing but the date, the day, the user
/// and the colour setting: two renderings of the same are the same text.
pub proof fn rendering_is_repeatable(
    date: Seq<char>,
    day: JDayView,
    user: User,
    color: bool,
    first: Seq<char>,
    second: Seq<char>,
)
    requires
        first == rendered(date, day, user, color),
        second == rendered(date, day, user, color),
    ensures
        first == second,
{
}

} // verus!
