//! Terminal and HTML report formatter.
//!
//! Produces a human-readable summary of the optimizer result: the recommended
//! item for each slot, the total of each goal stat, the projected tracked and
//! raw Base stats, whether each minimum was met, any warnings, and a banner
//! explaining an infeasible result.
use vstd::prelude::*;

use crate::gear::{all_slots_spec, slot_display_spec, GearItem, GearSet, Slot};
use crate::build_profiles::{goal_text, goal_to_string, join_spec};
use crate::optimizer::OptimizeResult;
use crate::scrap::ScrapUnusedItem;
use crate::stat::{
    base_stats, base_stats_spec, display_name_spec, lemma_index_of_stat_at, lemma_stat_index_bijective, stat_at, stat_from_index, stat_index_spec,
    tracked_stats, tracked_stats_spec, Stat, StatGoal, StatMap, STAT_COUNT,
};
use crate::text::{decimal_chars, decimal_string, push_char, string_from_chars};

verus! {

// ── Text building blocks ─────────────────────────────────────────────────────

/// `s` with a comma between every group of three digits, counted from the
/// right.
pub open spec fn group_thousands(s: Seq<char>) -> Seq<char>
    decreases s.len(),
{
    if s.len() <= 3 {
        s
    } else {
        group_thousands(s.subrange(0, s.len() - 3)) + ","@ + s.subrange(s.len() - 3, s.len() as int)
    }
}

/// The magnitude of `n`.
pub open spec fn magnitude(n: i64) -> nat {
    if n < 0 {
        (-n) as nat
    } else {
        n as nat
    }
}

/// `n` with thousands separators: 1234567 is `1,234,567`, -6140 is `-6,140`.
pub open spec fn format_number_spec(n: i64) -> Seq<char> {
    let digits = group_thousands(decimal_string(magnitude(n)));
    if n < 0 {
        "-"@ + digits
    } else {
        digits
    }
}

/// Inserts the thousands separators into a run of digits.
fn group_digits(d: &Vec<char>) -> (r: Vec<char>)
    ensures
        r@ == group_thousands(d@),
{
    // The first group holds the digits left over by whole groups of three.
    let n = d.len();
    let mut r: Vec<char> = Vec::new();
    let mut i: usize = 0;
    let head = if n % 3 == 0 && n > 0 { 3 } else { n % 3 };
    while i < head
        invariant
            i <= head,
            head <= n,
            n == d@.len(),
            r@ == d@.subrange(0, i as int),
        decreases head - i,
    {
        r.push(d[i]);
        i += 1;
        assert(r@ =~= d@.subrange(0, i as int));
    }
    proof {
        lemma_group_prefix(d@, head as int);
    }
    while i < n
        invariant
            head <= i <= n,
            n == d@.len(),
            (i - head) % 3 == 0,
            head == (if n % 3 == 0 && n > 0 { 3 } else { n % 3 }),
            r@ == group_thousands(d@.subrange(0, i as int)),
        decreases n - i,
    {
        let ghost old_r = r@;
        r.push(',');
        r.push(d[i]);
        r.push(d[i + 1]);
        r.push(d[i + 2]);
        proof {
            let s = d@.subrange(0, i + 3);
            assert(s.subrange(0, s.len() - 3) =~= d@.subrange(0, i as int));
            assert(s.subrange(s.len() - 3, s.len() as int) =~= seq![d@[i as int], d@[i + 1], d@[i + 2]]);
            assert(r@ =~= old_r + ","@ + s.subrange(s.len() - 3, s.len() as int)) by {
                reveal_strlit(",");
            }
        }
        i += 3;
    }
    assert(d@.subrange(0, n as int) =~= d@);
    r
}

proof fn lemma_group_prefix(d: Seq<char>, head: int)
    requires
        head == (if d.len() % 3 == 0 && d.len() > 0 { 3 } else { d.len() % 3 }),
    ensures
        group_thousands(d.subrange(0, head)) == d.subrange(0, head),
{
}

/// Formats an `i64` with thousands separators: 1234567 is `1,234,567`.
pub fn format_number(n: i64) -> (r: String)
    requires
        n != i64::MIN,
    ensures
        r@ == format_number_spec(n),
{
    let m: u64 = if n < 0 { (-n) as u64 } else { n as u64 };
    let digits = decimal_chars(m);
    let grouped = group_digits(&digits);
    let body = string_from_chars(grouped.as_slice());
    if n < 0 {
        let mut r = "-".to_owned();
        r.append(body.as_str());
        r
    } else {
        body
    }
}

/// `s` cut to `max` characters, the last one replaced by `…` when cut.
pub open spec fn truncate_spec(s: Seq<char>, max: nat) -> Seq<char> {
    if s.len() <= max {
        s
    } else {
        s.subrange(0, max - 1) + "…"@
    }
}

/// Truncates a string to `max_chars`, ending it with `…` if it was cut.
pub fn truncate(s: &str, max_chars: usize) -> (r: String)
    requires
        max_chars > 0,
    ensures
        r@ == truncate_spec(s@, max_chars as nat),
{
    let n = s.unicode_len();
    if n <= max_chars {
        return s.to_owned();
    }
    let mut r = String::new();
    let mut i: usize = 0;
    while i < max_chars - 1
        invariant
            n == s@.len(),
            max_chars < n,
            i <= max_chars - 1,
            r@ == s@.subrange(0, i as int),
        decreases max_chars - 1 - i,
    {
        push_char(&mut r, s.get_char(i));
        i += 1;
        assert(r@ =~= s@.subrange(0, i as int));
    }
    r.append("…");
    r
}

/// The HTML escape of one character.
pub open spec fn html_escape_char(c: char) -> Seq<char> {
    if c == '&' {
        "&amp;"@
    } else if c == '<' {
        "&lt;"@
    } else if c == '>' {
        "&gt;"@
    } else if c == '"' {
        "&quot;"@
    } else if c == '\'' {
        "&#39;"@
    } else {
        seq![c]
    }
}

/// `s` with `& < > " '` replaced by their HTML entities.
pub open spec fn html_escape_spec(s: Seq<char>) -> Seq<char>
    decreases s.len(),
{
    if s.len() == 0 {
        Seq::empty()
    } else {
        html_escape_spec(s.drop_last()) + html_escape_char(s.last())
    }
}

/// Escapes `& < > " '` for HTML.
pub fn html_escape(s: &str) -> (r: String)
    ensures
        r@ == html_escape_spec(s@),
{
    let n = s.unicode_len();
    let mut r = String::new();
    let mut i: usize = 0;
    while i < n
        invariant
            n == s@.len(),
            i <= n,
            r@ == html_escape_spec(s@.subrange(0, i as int)),
        decreases n - i,
    {
        let c = s.get_char(i);
        let ghost before = r@;
        if c == '&' {
            r.append("&amp;");
        } else if c == '<' {
            r.append("&lt;");
        } else if c == '>' {
            r.append("&gt;");
        } else if c == '"' {
            r.append("&quot;");
        } else if c == '\'' {
            r.append("&#39;");
        } else {
            push_char(&mut r, c);
            assert(r@ =~= before + seq![c]);
        }
        proof {
            let t = s@.subrange(0, i + 1);
            assert(t.drop_last() =~= s@.subrange(0, i as int));
            assert(t.last() == c);
        }
        i += 1;
    }
    assert(s@.subrange(0, n as int) =~= s@);
    r
}

/// `n` copies of `c`.
pub open spec fn repeat_spec(c: char, n: nat) -> Seq<char> {
    Seq::new(n, |i: int| c)
}

/// `n` copies of `c`.
pub fn repeat_char(c: char, n: usize) -> (r: String)
    ensures
        r@ == repeat_spec(c, n as nat),
{
    let mut r = String::new();
    let mut i: usize = 0;
    while i < n
        invariant
            i <= n,
            r@ == repeat_spec(c, i as nat),
        decreases n - i,
    {
        push_char(&mut r, c);
        i += 1;
        assert(r@ =~= repeat_spec(c, i as nat));
    }
    r
}

/// `s` padded with spaces on the right to at least `w` characters.
pub open spec fn pad_right_spec(s: Seq<char>, w: nat) -> Seq<char> {
    if s.len() >= w {
        s
    } else {
        s + repeat_spec(' ', (w - s.len()) as nat)
    }
}

/// `s` padded with spaces on the left to at least `w` characters.
pub open spec fn pad_left_spec(s: Seq<char>, w: nat) -> Seq<char> {
    if s.len() >= w {
        s
    } else {
        repeat_spec(' ', (w - s.len()) as nat) + s
    }
}

/// Pads `s` with spaces on the right to at least `w` characters.
pub fn pad_right(s: &str, w: usize) -> (r: String)
    ensures
        r@ == pad_right_spec(s@, w as nat),
{
    let n = s.unicode_len();
    let mut r = s.to_owned();
    if n < w {
        let pad = repeat_char(' ', w - n);
        r.append(pad.as_str());
    }
    r
}

/// Pads `s` with spaces on the left to at least `w` characters.
pub fn pad_left(s: &str, w: usize) -> (r: String)
    ensures
        r@ == pad_left_spec(s@, w as nat),
{
    let n = s.unicode_len();
    if n < w {
        let mut r = repeat_char(' ', w - n);
        r.append(s);
        r
    } else {
        s.to_owned()
    }
}

// ── Labels ───────────────────────────────────────────────────────────────────

/// The met marker of a goal: `—` for a zero minimum, else `✓` or `✗`.
pub open spec fn goal_met_marker_spec(minimum: i64, total: i64) -> Seq<char> {
    if minimum == 0 {
        "—"@
    } else if total >= minimum {
        "✓"@
    } else {
        "✗"@
    }
}

/// The Met? marker tells the truth about the goal: for a non-zero minimum it
/// is `✓` exactly when the total reaches the minimum and `✗` exactly when the
/// total falls short; a zero minimum (no floor) shows `—`. The three markers
/// are different texts.
pub proof fn lemma_goal_met_marker_reports_the_goal(minimum: i64, total: i64)
    ensures
        minimum == 0 ==> goal_met_marker_spec(minimum, total) == "—"@,
        minimum != 0 ==> (goal_met_marker_spec(minimum, total) == "✓"@ <==> total >= minimum),
        minimum != 0 ==> (goal_met_marker_spec(minimum, total) == "✗"@ <==> total < minimum),
        "✓"@ != "✗"@,
        "✓"@ != "—"@,
        "✗"@ != "—"@,
{
    reveal_strlit("✓");
    reveal_strlit("✗");
    reveal_strlit("—");
    assert("✓"@[0] != "✗"@[0]);
    assert("✓"@[0] != "—"@[0]);
    assert("✗"@[0] != "—"@[0]);
}

/// The met marker of a goal: `—` for a zero minimum, else `✓` or `✗`.
pub fn goal_met_marker(minimum: i64, total: i64) -> (r: &'static str)
    ensures
        r@ == goal_met_marker_spec(minimum, total),
        minimum != 0 ==> (r@ == "✓"@ <==> total >= minimum),
        minimum != 0 ==> (r@ == "✗"@ <==> total < minimum),
{
    proof {
        lemma_goal_met_marker_reports_the_goal(minimum, total);
    }
    if minimum == 0 {
        "—"
    } else if total >= minimum {
        "✓"
    } else {
        "✗"
    }
}

/// The zero placeholder the optimizer wears in a slot without candidates is
/// recognised as a placeholder by every report, whatever the slot.
pub proof fn lemma_placeholders_are_recognised(slot: Slot)
    ensures
        is_empty_placeholder_spec(crate::optimizer::empty_name(slot)),
{
    reveal_strlit("[empty");
    reveal_strlit("[empty ");
    let n = crate::optimizer::empty_name(slot);
    assert(n.subrange(0, 6) =~= "[empty"@);
}

/// Whether an item name is an empty-slot placeholder (`[empty ...]`).
pub open spec fn is_empty_placeholder_spec(name: Seq<char>) -> bool {
    "[empty"@.len() <= name.len() && name.subrange(0, "[empty"@.len() as int) == "[empty"@
}

/// Whether an item name is an empty-slot placeholder (`[empty ...]`).
pub fn is_empty_placeholder(name: &str) -> (r: bool)
    ensures
        r == is_empty_placeholder_spec(name@),
{
    crate::text::starts_with(name, "[empty")
}

/// The label of a slot in the gear table: `(2-handed item)` for the off-hand
/// beside a two-handed main hand, `NO ITEMS` for an empty slot or
/// placeholder, else the item's name.
pub open spec fn hand_or_item_label_spec(g: GearSet, slot: Slot, main_is_two_handed: bool) -> Seq<char> {
    if slot == Slot::OffHand && main_is_two_handed {
        "(2-handed item)"@
    } else {
        match g.item_spec(slot) {
            Some(it) => if is_empty_placeholder_spec(it.name@) {
                "NO ITEMS"@
            } else {
                it.name@
            },
            None => "NO ITEMS"@,
        }
    }
}

/// The label of a slot in the gear table.
pub fn hand_or_item_label(gear_set: &GearSet, slot: Slot, main_is_two_handed: bool) -> (r: String)
    ensures
        r@ == hand_or_item_label_spec(*gear_set, slot, main_is_two_handed),
{
    if slot == Slot::OffHand && main_is_two_handed {
        return "(2-handed item)".to_owned();
    }
    match gear_set.item(slot) {
        Some(item) => {
            if is_empty_placeholder(item.name.as_str()) {
                "NO ITEMS".to_owned()
            } else {
                item.name.clone()
            }
        },
        None => "NO ITEMS".to_owned(),
    }
}

/// Whether the main hand holds a two-handed item.
pub open spec fn main_is_two_handed_spec(g: GearSet) -> bool {
    g.item_spec(Slot::MainHand) matches Some(it) && it.two_handed
}

fn main_is_two_handed(gear_set: &GearSet) -> (r: bool)
    ensures
        r == main_is_two_handed_spec(*gear_set),
{
    match gear_set.item(Slot::MainHand) {
        Some(item) => item.two_handed,
        None => false,
    }
}

// ── Report preconditions ─────────────────────────────────────────────────────

/// A total as the `i64` the report prints.
pub open spec fn total_i64(g: GearSet, s: Stat) -> i64 {
    g.total_spec(s) as i64
}

/// Every number the reports print is an `i64` other than `i64::MIN`: gear
/// totals, shortfall entries and their differences, and projected Base
/// stats.
pub open spec fn report_inputs_ok(result: OptimizeResult, projected: StatMap) -> bool {
    &&& forall|s: Stat| i64::MIN < #[trigger] result.gear_set.total_spec(s) <= i64::MAX
    &&& forall|i: int|
        0 <= i < result.failed_minima@.len() ==> {
            let f = #[trigger] result.failed_minima@[i];
            &&& f.1 != i64::MIN
            &&& f.2 != i64::MIN
            &&& i64::MIN < f.1 - f.2 <= i64::MAX
        }
    &&& forall|s: Stat| #[trigger] projected.value(s) != i64::MIN
}

/// Whether every number the reports print can be formatted: the check a
/// caller makes before `format_optimize_report` and
/// `format_optimize_report_html`.
pub fn report_inputs_printable(result: &OptimizeResult, projected: &StatMap) -> (r: bool)
    ensures
        r == report_inputs_ok(*result, *projected),
{
    proof {
        lemma_stat_index_bijective();
    }
    let mut i: usize = 0;
    while i < STAT_COUNT
        invariant
            i <= STAT_COUNT,
            forall|s: Stat| #![trigger stat_index_spec(s)] stat_index_spec(s) < i ==> {
                &&& i64::MIN < result.gear_set.total_spec(s) <= i64::MAX
                &&& projected.value(s) != i64::MIN
            },
            forall|s: Stat| 0 <= #[trigger] stat_index_spec(s) < STAT_COUNT,
            forall|s: Stat| #[trigger] stat_at(stat_index_spec(s)) == s,
        decreases STAT_COUNT - i,
    {
        let st = stat_from_index(i);
        assert(stat_index_spec(st) == i as int) by {
            lemma_index_of_stat_at(i as int);
        }
        let t = result.gear_set.total_wide(&st);
        if t <= i64::MIN as i128 || t > i64::MAX as i128 || projected.get(st) == i64::MIN {
            return false;
        }
        i += 1;
    }
    assert forall|s: Stat|
        i64::MIN < #[trigger] result.gear_set.total_spec(s) <= i64::MAX && projected.value(s) != i64::MIN by {
        assert(stat_index_spec(s) < STAT_COUNT);
    }
    assert forall|s: Stat| #[trigger] projected.value(s) != i64::MIN by {
        assert(stat_index_spec(s) < STAT_COUNT);
    }
    let mut k: usize = 0;
    while k < result.failed_minima.len()
        invariant
            k <= result.failed_minima@.len(),
            forall|s: Stat| i64::MIN < #[trigger] result.gear_set.total_spec(s) <= i64::MAX,
            forall|s: Stat| #[trigger] projected.value(s) != i64::MIN,
            forall|j: int|
                0 <= j < k ==> {
                    let f = #[trigger] result.failed_minima@[j];
                    &&& f.1 != i64::MIN
                    &&& f.2 != i64::MIN
                    &&& i64::MIN < f.1 - f.2 <= i64::MAX
                },
        decreases result.failed_minima@.len() - k,
    {
        let f = result.failed_minima[k];
        if f.1 == i64::MIN || f.2 == i64::MIN {
            return false;
        }
        let d = f.1 as i128 - f.2 as i128;
        if d <= i64::MIN as i128 || d > i64::MAX as i128 {
            return false;
        }
        k += 1;
    }
    true
}

// ── Text report ──────────────────────────────────────────────────────────────

/// The report header.
pub open spec fn header_text(character: Seq<char>, class: Seq<char>, input_file: Seq<char>, timestamp: Seq<char>) -> Seq<char> {
    "\n  LGO — Gear Optimizer\n  Character : "@ + character + " ("@ + class + ")\n  Stats file: "@ + input_file
        + "\n  Run time  : "@ + timestamp + "\n  "@ + repeat_spec('─', 65) + "\n"@
}

fn header_section(character: &str, class: &str, input_file: &str, timestamp: &str) -> (r: String)
    ensures
        r@ == header_text(character@, class@, input_file@, timestamp@),
{
    let divider = repeat_char('─', 65);
    let mut w = "\n  LGO — Gear Optimizer\n  Character : ".to_owned();
    w.append(character);
    w.append(" (");
    w.append(class);
    w.append(")\n  Stats file: ");
    w.append(input_file);
    w.append("\n  Run time  : ");
    w.append(timestamp);
    w.append("\n  ");
    w.append(divider.as_str());
    w.append("\n");
    w
}

/// One line per warning.
pub open spec fn warning_lines(ws: Seq<Seq<char>>) -> Seq<char>
    decreases ws.len(),
{
    if ws.len() == 0 {
        Seq::empty()
    } else {
        warning_lines(ws.drop_last()) + "    ⚠  "@ + ws.last() + "\n"@
    }
}

/// The warnings block (empty when there are none).
pub open spec fn warnings_text(ws: Seq<Seq<char>>) -> Seq<char> {
    if ws.len() == 0 {
        ""@
    } else {
        "\n  WARNINGS:\n"@ + warning_lines(ws) + "\n"@
    }
}

fn warnings_section(warnings: &Vec<String>) -> (r: String)
    ensures
        r@ == warnings_text(crate::order::string_views(warnings@)),
{
    let ghost ws = crate::order::string_views(warnings@);
    if warnings.len() == 0 {
        return "".to_owned();
    }
    let mut lines = String::new();
    let mut k: usize = 0;
    while k < warnings.len()
        invariant
            k <= warnings@.len(),
            ws == crate::order::string_views(warnings@),
            lines@ == warning_lines(ws.subrange(0, k as int)),
        decreases warnings@.len() - k,
    {
        proof {
            let t = ws.subrange(0, k + 1);
            assert(t.drop_last() =~= ws.subrange(0, k as int));
            assert(t.last() == warnings@[k as int]@);
        }
        lines.append("    ⚠  ");
        lines.append(warnings[k].as_str());
        lines.append("\n");
        k += 1;
    }
    assert(ws.subrange(0, ws.len() as int) =~= ws);
    let mut w = "\n  WARNINGS:\n".to_owned();
    w.append(lines.as_str());
    w.append("\n");
    w
}

/// The gear table rows for the first `n` slots.
pub open spec fn gear_rows(g: GearSet, main2h: bool, n: int) -> Seq<char>
    decreases n,
{
    if n <= 0 {
        Seq::empty()
    } else {
        let slot = all_slots_spec()[n - 1];
        gear_rows(g, main2h, n - 1) + "  "@ + pad_left_spec(slot_display_spec(slot), 14) + "  "@ + truncate_spec(
            hand_or_item_label_spec(g, slot, main2h),
            48,
        ) + "\n"@
    }
}

/// The recommended-gear table.
pub open spec fn gear_table_text(g: GearSet) -> Seq<char> {
    "\n  "@ + pad_left_spec("Slot"@, 12) + "  Recommended Item\n  "@ + repeat_spec('─', 65) + "\n"@ + gear_rows(
        g,
        main_is_two_handed_spec(g),
        19,
    ) + "  "@ + repeat_spec('─', 65) + "\n"@
}

fn gear_table_section(g: &GearSet) -> (r: String)
    ensures
        r@ == gear_table_text(*g),
{
    let divider = repeat_char('─', 65);
    let main2h = main_is_two_handed(g);
    let slots = Slot::all();
    let mut rows = String::new();
    let mut k: usize = 0;
    while k < slots.len()
        invariant
            slots@ == all_slots_spec(),
            k <= slots@.len(),
            main2h == main_is_two_handed_spec(*g),
            rows@ == gear_rows(*g, main2h, k as int),
        decreases slots@.len() - k,
    {
        let slot = slots[k];
        let label = hand_or_item_label(g, slot, main2h);
        let shown = truncate(label.as_str(), 48);
        let name = pad_left(slot.display_name(), 14);
        rows.append("  ");
        rows.append(name.as_str());
        rows.append("  ");
        rows.append(shown.as_str());
        rows.append("\n");
        k += 1;
    }
    let slot_head = pad_left("Slot", 12);
    let mut w = "\n  ".to_owned();
    w.append(slot_head.as_str());
    w.append("  Recommended Item\n  ");
    w.append(divider.as_str());
    w.append("\n");
    w.append(rows.as_str());
    w.append("  ");
    w.append(divider.as_str());
    w.append("\n");
    w
}

/// Whether `stat` has an entry in the shortfall list.
pub open spec fn failed_has(failed: Seq<(Stat, i64, i64)>, stat: Stat) -> bool {
    exists|i: int| 0 <= i < failed.len() && #[trigger] failed[i].0 == stat
}

fn failed_contains(failed: &Vec<(Stat, i64, i64)>, stat: Stat) -> (r: bool)
    ensures
        r == failed_has(failed@, stat),
{
    let mut k: usize = 0;
    while k < failed.len()
        invariant
            k <= failed@.len(),
            forall|i: int| 0 <= i < k ==> #[trigger] failed@[i].0 != stat,
        decreases failed@.len() - k,
    {
        if failed[k].0 == stat {
            return true;
        }
        k += 1;
    }
    false
}

/// The minimum column: the formatted minimum, or `—` when it is not positive.
pub open spec fn min_text(minimum: i64) -> Seq<char> {
    if minimum > 0 {
        format_number_spec(minimum)
    } else {
        "—"@
    }
}

/// The failed-minimum flag of a goal row.
pub open spec fn flag_text(failed: bool) -> Seq<char> {
    if failed {
        " ⚠"@
    } else {
        ""@
    }
}

/// The goal summary rows for the first `n` goals.
pub open spec fn summary_rows(g: GearSet, goals: Seq<StatGoal>, failed: Seq<(Stat, i64, i64)>, n: int) -> Seq<char>
    decreases n,
{
    if n <= 0 {
        Seq::empty()
    } else {
        let goal = goals[n - 1];
        let total = total_i64(g, goal.stat);
        summary_rows(g, goals, failed, n - 1) + "  "@ + pad_right_spec(display_name_spec(goal.stat), 22) + "  "@
            + pad_left_spec(format_number_spec(total), 10) + "  "@ + pad_left_spec(min_text(goal.minimum), 10) + "  "@
            + goal_met_marker_spec(goal.minimum, total) + flag_text(failed_has(failed, goal.stat)) + "\n"@
    }
}

/// The goal stat summary table (empty when there are no goals).
pub open spec fn summary_text(g: GearSet, goals: Seq<StatGoal>, failed: Seq<(Stat, i64, i64)>) -> Seq<char> {
    if goals.len() == 0 {
        ""@
    } else {
        "\n  "@ + pad_right_spec("Stat"@, 22) + "  "@ + pad_left_spec("Total"@, 10) + "  "@ + pad_left_spec(
            "Minimum"@,
            10,
        ) + "  Met?\n  "@ + repeat_spec('─', 53) + "\n"@ + summary_rows(g, goals, failed, goals.len() as int) + "  "@
            + repeat_spec('─', 53) + "\n"@
    }
}

fn min_column(minimum: i64) -> (r: String)
    ensures
        r@ == min_text(minimum),
{
    if minimum > 0 {
        format_number(minimum)
    } else {
        "—".to_owned()
    }
}

fn summary_section(g: &GearSet, goals: &[StatGoal], failed: &Vec<(Stat, i64, i64)>) -> (r: String)
    requires
        forall|s: Stat| i64::MIN < #[trigger] g.total_spec(s) <= i64::MAX,
    ensures
        r@ == summary_text(*g, goals@, failed@),
{
    if goals.len() == 0 {
        return "".to_owned();
    }
    let divider = repeat_char('─', 53);
    let mut rows = String::new();
    let mut k: usize = 0;
    while k < goals.len()
        invariant
            k <= goals@.len(),
            forall|s: Stat| i64::MIN < #[trigger] g.total_spec(s) <= i64::MAX,
            rows@ == summary_rows(*g, goals@, failed@, k as int),
        decreases goals@.len() - k,
    {
        let goal = goals[k];
        let total = g.total(&goal.stat);
        let name = pad_right(goal.stat.display_name(), 22);
        let total_text = format_number(total);
        let total_col = pad_left(total_text.as_str(), 10);
        let min_col_text = min_column(goal.minimum);
        let min_col = pad_left(min_col_text.as_str(), 10);
        let flag = if failed_contains(failed, goal.stat) {
            " ⚠"
        } else {
            ""
        };
        rows.append("  ");
        rows.append(name.as_str());
        rows.append("  ");
        rows.append(total_col.as_str());
        rows.append("  ");
        rows.append(min_col.as_str());
        rows.append("  ");
        rows.append(goal_met_marker(goal.minimum, total));
        rows.append(flag);
        rows.append("\n");
        k += 1;
    }
    let stat_head = pad_right("Stat", 22);
    let total_head = pad_left("Total", 10);
    let min_head = pad_left("Minimum", 10);
    let mut w = "\n  ".to_owned();
    w.append(stat_head.as_str());
    w.append("  ");
    w.append(total_head.as_str());
    w.append("  ");
    w.append(min_head.as_str());
    w.append("  Met?\n  ");
    w.append(divider.as_str());
    w.append("\n");
    w.append(rows.as_str());
    w.append("  ");
    w.append(divider.as_str());
    w.append("\n");
    w
}

/// One `name  value` row per stat of `stats`, for the first `n`.
pub open spec fn value_rows(stats: Seq<Stat>, vals: Seq<i64>, n: int) -> Seq<char>
    decreases n,
{
    if n <= 0 {
        Seq::empty()
    } else {
        value_rows(stats, vals, n - 1) + "  "@ + pad_right_spec(display_name_spec(stats[n - 1]), 22) + "  "@
            + pad_left_spec(format_number_spec(vals[n - 1]), 10) + "\n"@
    }
}

/// The gear totals of `stats`.
pub open spec fn totals_of(g: GearSet, stats: Seq<Stat>) -> Seq<i64> {
    Seq::new(stats.len(), |i: int| total_i64(g, stats[i]))
}

/// The values of `stats` in `m`.
pub open spec fn values_of(m: StatMap, stats: Seq<Stat>) -> Seq<i64> {
    Seq::new(stats.len(), |i: int| m.value(stats[i]))
}

fn value_rows_section(stats: &Vec<Stat>, vals: &Vec<i64>) -> (r: String)
    requires
        stats@.len() == vals@.len(),
        forall|i: int| 0 <= i < vals@.len() ==> #[trigger] vals@[i] != i64::MIN,
    ensures
        r@ == value_rows(stats@, vals@, stats@.len() as int),
{
    let mut rows = String::new();
    let mut k: usize = 0;
    while k < stats.len()
        invariant
            k <= stats@.len(),
            stats@.len() == vals@.len(),
            forall|i: int| 0 <= i < vals@.len() ==> #[trigger] vals@[i] != i64::MIN,
            rows@ == value_rows(stats@, vals@, k as int),
        decreases stats@.len() - k,
    {
        let name = pad_right(stats[k].display_name(), 22);
        let value_text = format_number(vals[k]);
        let value_col = pad_left(value_text.as_str(), 10);
        rows.append("  ");
        rows.append(name.as_str());
        rows.append("  ");
        rows.append(value_col.as_str());
        rows.append("\n");
        k += 1;
    }
    rows
}

fn gear_totals(g: &GearSet, stats: &Vec<Stat>) -> (r: Vec<i64>)
    requires
        forall|s: Stat| i64::MIN < #[trigger] g.total_spec(s) <= i64::MAX,
    ensures
        r@ == totals_of(*g, stats@),
        forall|i: int| 0 <= i < r@.len() ==> #[trigger] r@[i] != i64::MIN,
{
    let mut r: Vec<i64> = Vec::new();
    let mut k: usize = 0;
    while k < stats.len()
        invariant
            k <= stats@.len(),
            forall|s: Stat| i64::MIN < #[trigger] g.total_spec(s) <= i64::MAX,
            r@ == totals_of(*g, stats@).subrange(0, k as int),
        decreases stats@.len() - k,
    {
        r.push(g.total(&stats[k]));
        k += 1;
        assert(r@ =~= totals_of(*g, stats@).subrange(0, k as int));
    }
    assert(r@ =~= totals_of(*g, stats@));
    r
}

fn map_values(m: &StatMap, stats: &Vec<Stat>) -> (r: Vec<i64>)
    ensures
        r@ == values_of(*m, stats@),
{
    let mut r: Vec<i64> = Vec::new();
    let mut k: usize = 0;
    while k < stats.len()
        invariant
            k <= stats@.len(),
            r@ == values_of(*m, stats@).subrange(0, k as int),
        decreases stats@.len() - k,
    {
        r.push(m.get(stats[k]));
        k += 1;
        assert(r@ =~= values_of(*m, stats@).subrange(0, k as int));
    }
    assert(r@ =~= values_of(*m, stats@));
    r
}

/// The projected tracked-stat block.
pub open spec fn tracked_text(g: GearSet) -> Seq<char> {
    "\n  Projected tracked stats (gear + essences + derived Base-stat contributions + Virtue fixed stats):\n\n"@
        + value_rows(tracked_stats_spec(), totals_of(g, tracked_stats_spec()), 16) + "  "@ + repeat_spec('─', 34)
        + "\n"@
}

/// The projected raw Base-stat block.
pub open spec fn base_text(projected: StatMap) -> Seq<char> {
    "\n  Projected raw Base stats (innate + gear + essences + Virtues; derivation inputs only):\n\n"@
        + value_rows(base_stats_spec(), values_of(projected, base_stats_spec()), 5) + "  "@ + repeat_spec('─', 34)
        + "\n"@
}

fn tracked_section(g: &GearSet) -> (r: String)
    requires
        forall|s: Stat| i64::MIN < #[trigger] g.total_spec(s) <= i64::MAX,
    ensures
        r@ == tracked_text(*g),
{
    let stats = tracked_stats();
    let vals = gear_totals(g, &stats);
    let rows = value_rows_section(&stats, &vals);
    let divider = repeat_char('─', 34);
    let mut w = "\n  Projected tracked stats (gear + essences + derived Base-stat contributions + Virtue fixed stats):\n\n".to_owned();
    w.append(rows.as_str());
    w.append("  ");
    w.append(divider.as_str());
    w.append("\n");
    w
}

fn base_section(projected: &StatMap) -> (r: String)
    requires
        forall|s: Stat| #[trigger] projected.value(s) != i64::MIN,
    ensures
        r@ == base_text(*projected),
{
    let stats = base_stats();
    let vals = map_values(projected, &stats);
    let rows = value_rows_section(&stats, &vals);
    let divider = repeat_char('─', 34);
    let mut w = "\n  Projected raw Base stats (innate + gear + essences + Virtues; derivation inputs only):\n\n".to_owned();
    w.append(rows.as_str());
    w.append("  ");
    w.append(divider.as_str());
    w.append("\n");
    w
}

/// The shortfall rows of the infeasible banner, for the first `n` entries.
pub open spec fn failed_rows(failed: Seq<(Stat, i64, i64)>, n: int) -> Seq<char>
    decreases n,
{
    if n <= 0 {
        Seq::empty()
    } else {
        let f = failed[n - 1];
        failed_rows(failed, n - 1) + "    "@ + pad_right_spec(display_name_spec(f.0), 22) + "  needed "@
            + pad_left_spec(format_number_spec(f.1), 8) + "  achieved "@ + pad_left_spec(format_number_spec(f.2), 8)
            + "  short by "@ + pad_left_spec(format_number_spec((f.1 - f.2) as i64), 8) + "\n"@
    }
}

/// The infeasible banner with its shortfall list.
pub open spec fn infeasible_text(failed: Seq<(Stat, i64, i64)>) -> Seq<char> {
    "\n  ════════════════════════════════════════════════\n  ✗  INFEASIBLE — not all stat minima can be met ✗\n  ════════════════════════════════════════════════\n\n  The following stats could not reach their minima\n  with any combination of the available items:\n\n"@
        + failed_rows(failed, failed.len() as int)
        + "\n  The result shown gets your highest-priority goals as close\n  to their targets as possible; once a goal is met, extra\n  points in it are not pursued at the expense of lower-priority\n  goals still short of target.\n"@
}

/// No shortfall entry prints `i64::MIN`.
pub open spec fn failed_printable(failed: Seq<(Stat, i64, i64)>) -> bool {
    forall|i: int|
        0 <= i < failed.len() ==> {
            let f = #[trigger] failed[i];
            &&& f.1 != i64::MIN
            &&& f.2 != i64::MIN
            &&& i64::MIN < f.1 - f.2 <= i64::MAX
        }
}

fn infeasible_section(failed: &Vec<(Stat, i64, i64)>) -> (r: String)
    requires
        failed_printable(failed@),
    ensures
        r@ == infeasible_text(failed@),
{
    let mut rows = String::new();
    let mut k: usize = 0;
    while k < failed.len()
        invariant
            k <= failed@.len(),
            failed_printable(failed@),
            rows@ == failed_rows(failed@, k as int),
        decreases failed@.len() - k,
    {
        let (stat, minimum, achieved) = failed[k];
        assert(failed@[k as int] == (stat, minimum, achieved));
        let name = pad_right(stat.display_name(), 22);
        let needed = format_number(minimum);
        let got = format_number(achieved);
        let short = format_number(minimum - achieved);
        let needed_col = pad_left(needed.as_str(), 8);
        let got_col = pad_left(got.as_str(), 8);
        let short_col = pad_left(short.as_str(), 8);
        rows.append("    ");
        rows.append(name.as_str());
        rows.append("  needed ");
        rows.append(needed_col.as_str());
        rows.append("  achieved ");
        rows.append(got_col.as_str());
        rows.append("  short by ");
        rows.append(short_col.as_str());
        rows.append("\n");
        k += 1;
    }
    let mut w = "\n  ════════════════════════════════════════════════\n  ✗  INFEASIBLE — not all stat minima can be met ✗\n  ════════════════════════════════════════════════\n\n  The following stats could not reach their minima\n  with any combination of the available items:\n\n".to_owned();
    w.append(rows.as_str());
    w.append(
        "\n  The result shown gets your highest-priority goals as close\n  to their targets as possible; once a goal is met, extra\n  points in it are not pursued at the expense of lower-priority\n  goals still short of target.\n",
    );
    w
}

/// The full text optimize report.
pub open spec fn optimize_report_text(
    result: OptimizeResult,
    goals: Seq<StatGoal>,
    character: Seq<char>,
    class: Seq<char>,
    input_file: Seq<char>,
    timestamp: Seq<char>,
    projected: StatMap,
) -> Seq<char> {
    header_text(character, class, input_file, timestamp) + warnings_text(
        crate::order::string_views(result.warnings@),
    ) + gear_table_text(result.gear_set) + summary_text(result.gear_set, goals, result.failed_minima@)
        + tracked_text(result.gear_set) + base_text(projected) + (if result.feasible {
        "\n  ✓  All stat minima met.\n"@
    } else {
        infeasible_text(result.failed_minima@)
    }) + "\n"@
}

/// Builds the full text optimize report used for terminal and `.txt`
/// output.
pub fn format_optimize_report(
    result: &OptimizeResult,
    goals: &[StatGoal],
    character: &str,
    class: &str,
    input_file: &str,
    timestamp: &str,
    projected_base_stats: &StatMap,
) -> (r: String)
    requires
        report_inputs_ok(*result, *projected_base_stats),
    ensures
        r@ == optimize_report_text(*result, goals@, character@, class@, input_file@, timestamp@, *projected_base_stats),
{
    let mut out = header_section(character, class, input_file, timestamp);
    let warnings = warnings_section(&result.warnings);
    out.append(warnings.as_str());
    let table = gear_table_section(&result.gear_set);
    out.append(table.as_str());
    let summary = summary_section(&result.gear_set, goals, &result.failed_minima);
    out.append(summary.as_str());
    let tracked_part = tracked_section(&result.gear_set);
    out.append(tracked_part.as_str());
    let base = base_section(projected_base_stats);
    out.append(base.as_str());
    let ending = if result.feasible {
        "\n  ✓  All stat minima met.\n".to_owned()
    } else {
        infeasible_section(&result.failed_minima)
    };
    out.append(ending.as_str());
    out.append("\n");
    out
}

// ── HTML report ──────────────────────────────────────────────────────────────

/// The document head and metadata paragraphs.
pub open spec fn html_head(character: Seq<char>, class: Seq<char>, input_file: Seq<char>, timestamp: Seq<char>) -> Seq<char> {
    "<!DOCTYPE html>\n<html lang=\"en\">\n<head>\n  <meta charset=\"utf-8\">\n  <title>LGO Gear Report</title>\n  <style>\n    body { font-family: system-ui, -apple-system, BlinkMacSystemFont, \"Segoe UI\", sans-serif; margin: 2rem; color: #222; background: #fff; }\n    h1, h2 { margin-bottom: 0.4rem; }\n    p.meta { margin: 0.2rem 0; }\n    table { border-collapse: collapse; margin: 1rem 0 1.5rem; min-width: 32rem; }\n    th, td { border: 1px solid #c9c9c9; padding: 0.45rem 0.6rem; text-align: left; vertical-align: top; }\n    th.num, td.num { text-align: right; font-variant-numeric: tabular-nums; }\n    .banner { font-weight: 700; padding: 0.75rem 1rem; border-radius: 0.35rem; margin: 1.25rem 0; }\n    .feasible { background: #edf9ed; border: 1px solid #9fcd9f; }\n    .infeasible { background: #fff1f1; border: 1px solid #d79b9b; }\n    ul { margin-top: 0.4rem; }\n    code { font-family: ui-monospace, SFMono-Regular, Menlo, Consolas, monospace; }\n  </style>\n</head>\n<body>\n  <h1>LGO — Gear Optimizer</h1>\n  <p class=\"meta\"><strong>Character:</strong> "@ + html_escape_spec(character) + " ("@ + html_escape_spec(class)
        + ")</p>\n  <p class=\"meta\"><strong>Stats file:</strong> <code>"@ + html_escape_spec(input_file)
        + "</code></p>\n  <p class=\"meta\"><strong>Run time:</strong> "@ + html_escape_spec(timestamp) + "</p>\n"@
}

fn html_head_section(character: &str, class: &str, input_file: &str, timestamp: &str) -> (r: String)
    ensures
        r@ == html_head(character@, class@, input_file@, timestamp@),
{
    let ch = html_escape(character);
    let cl = html_escape(class);
    let input = html_escape(input_file);
    let ts = html_escape(timestamp);
    let mut w = "<!DOCTYPE html>\n<html lang=\"en\">\n<head>\n  <meta charset=\"utf-8\">\n  <title>LGO Gear Report</title>\n  <style>\n    body { font-family: system-ui, -apple-system, BlinkMacSystemFont, \"Segoe UI\", sans-serif; margin: 2rem; color: #222; background: #fff; }\n    h1, h2 { margin-bottom: 0.4rem; }\n    p.meta { margin: 0.2rem 0; }\n    table { border-collapse: collapse; margin: 1rem 0 1.5rem; min-width: 32rem; }\n    th, td { border: 1px solid #c9c9c9; padding: 0.45rem 0.6rem; text-align: left; vertical-align: top; }\n    th.num, td.num { text-align: right; font-variant-numeric: tabular-nums; }\n    .banner { font-weight: 700; padding: 0.75rem 1rem; border-radius: 0.35rem; margin: 1.25rem 0; }\n    .feasible { background: #edf9ed; border: 1px solid #9fcd9f; }\n    .infeasible { background: #fff1f1; border: 1px solid #d79b9b; }\n    ul { margin-top: 0.4rem; }\n    code { font-family: ui-monospace, SFMono-Regular, Menlo, Consolas, monospace; }\n  </style>\n</head>\n<body>\n  <h1>LGO — Gear Optimizer</h1>\n  <p class=\"meta\"><strong>Character:</strong> ".to_owned();
    w.append(ch.as_str());
    w.append(" (");
    w.append(cl.as_str());
    w.append(")</p>\n  <p class=\"meta\"><strong>Stats file:</strong> <code>");
    w.append(input.as_str());
    w.append("</code></p>\n  <p class=\"meta\"><strong>Run time:</strong> ");
    w.append(ts.as_str());
    w.append("</p>\n");
    w
}

/// One list item per warning.
pub open spec fn html_warning_items(ws: Seq<Seq<char>>) -> Seq<char>
    decreases ws.len(),
{
    if ws.len() == 0 {
        Seq::empty()
    } else {
        html_warning_items(ws.drop_last()) + "    <li>⚠ "@ + html_escape_spec(ws.last()) + "</li>\n"@
    }
}

/// The warnings list (empty when there are none).
pub open spec fn html_warnings(ws: Seq<Seq<char>>) -> Seq<char> {
    if ws.len() == 0 {
        ""@
    } else {
        "  <h2>Warnings</h2>\n  <ul>\n"@ + html_warning_items(ws) + "  </ul>\n"@
    }
}

fn html_warnings_section(warnings: &Vec<String>) -> (r: String)
    ensures
        r@ == html_warnings(crate::order::string_views(warnings@)),
{
    let ghost ws = crate::order::string_views(warnings@);
    if warnings.len() == 0 {
        return "".to_owned();
    }
    let mut items = String::new();
    let mut k: usize = 0;
    while k < warnings.len()
        invariant
            k <= warnings@.len(),
            ws == crate::order::string_views(warnings@),
            items@ == html_warning_items(ws.subrange(0, k as int)),
        decreases warnings@.len() - k,
    {
        proof {
            let t = ws.subrange(0, k + 1);
            assert(t.drop_last() =~= ws.subrange(0, k as int));
            assert(t.last() == warnings@[k as int]@);
        }
        let text = html_escape(warnings[k].as_str());
        items.append("    <li>⚠ ");
        items.append(text.as_str());
        items.append("</li>\n");
        k += 1;
    }
    assert(ws.subrange(0, ws.len() as int) =~= ws);
    let mut w = "  <h2>Warnings</h2>\n  <ul>\n".to_owned();
    w.append(items.as_str());
    w.append("  </ul>\n");
    w
}

/// The recommended-gear rows for the first `n` slots.
pub open spec fn html_gear_rows(g: GearSet, main2h: bool, n: int) -> Seq<char>
    decreases n,
{
    if n <= 0 {
        Seq::empty()
    } else {
        let slot = all_slots_spec()[n - 1];
        html_gear_rows(g, main2h, n - 1) + "      <tr><td>"@ + html_escape_spec(slot_display_spec(slot)) + "</td><td>"@
            + html_escape_spec(hand_or_item_label_spec(g, slot, main2h)) + "</td></tr>\n"@
    }
}

/// The recommended-gear table.
pub open spec fn html_gear_table(g: GearSet) -> Seq<char> {
    "  <h2>Recommended gear</h2>\n  <table>\n    <thead><tr><th>Slot</th><th>Recommended Item</th></tr></thead>\n    <tbody>\n"@ + html_gear_rows(g, main_is_two_handed_spec(g), 19) + "    </tbody>\n  </table>\n"@
}

fn html_gear_section(g: &GearSet) -> (r: String)
    ensures
        r@ == html_gear_table(*g),
{
    let main2h = main_is_two_handed(g);
    let slots = Slot::all();
    let mut rows = String::new();
    let mut k: usize = 0;
    while k < slots.len()
        invariant
            slots@ == all_slots_spec(),
            k <= slots@.len(),
            main2h == main_is_two_handed_spec(*g),
            rows@ == html_gear_rows(*g, main2h, k as int),
        decreases slots@.len() - k,
    {
        let slot = slots[k];
        let name = html_escape(slot.display_name());
        let label = hand_or_item_label(g, slot, main2h);
        let shown = html_escape(label.as_str());
        rows.append("      <tr><td>");
        rows.append(name.as_str());
        rows.append("</td><td>");
        rows.append(shown.as_str());
        rows.append("</td></tr>\n");
        k += 1;
    }
    let mut w = "  <h2>Recommended gear</h2>\n  <table>\n    <thead><tr><th>Slot</th><th>Recommended Item</th></tr></thead>\n    <tbody>\n".to_owned();
    w.append(rows.as_str());
    w.append("    </tbody>\n  </table>\n");
    w
}

/// The goal summary rows for the first `n` goals.
pub open spec fn html_summary_rows(g: GearSet, goals: Seq<StatGoal>, failed: Seq<(Stat, i64, i64)>, n: int) -> Seq<char>
    decreases n,
{
    if n <= 0 {
        Seq::empty()
    } else {
        let goal = goals[n - 1];
        let total = total_i64(g, goal.stat);
        html_summary_rows(g, goals, failed, n - 1) + "      <tr><td>"@ + html_escape_spec(display_name_spec(goal.stat))
            + "</td><td class=\"num\">"@ + format_number_spec(total) + "</td><td class=\"num\">"@ + min_text(goal.minimum)
            + "</td><td>"@ + goal_met_marker_spec(goal.minimum, total) + flag_text(failed_has(failed, goal.stat))
            + "</td></tr>\n"@
    }
}

/// The goal summary table (empty when there are no goals).
pub open spec fn html_summary(g: GearSet, goals: Seq<StatGoal>, failed: Seq<(Stat, i64, i64)>) -> Seq<char> {
    if goals.len() == 0 {
        ""@
    } else {
        "  <h2>Goal stat summary</h2>\n  <table>\n    <thead><tr><th>Stat</th><th class=\"num\">Total</th><th class=\"num\">Minimum</th><th>Met?</th></tr></thead>\n    <tbody>\n"@ + html_summary_rows(g, goals, failed, goals.len() as int) + "    </tbody>\n  </table>\n"@
    }
}

fn html_summary_section(g: &GearSet, goals: &[StatGoal], failed: &Vec<(Stat, i64, i64)>) -> (r: String)
    requires
        forall|s: Stat| i64::MIN < #[trigger] g.total_spec(s) <= i64::MAX,
    ensures
        r@ == html_summary(*g, goals@, failed@),
{
    if goals.len() == 0 {
        return "".to_owned();
    }
    let mut rows = String::new();
    let mut k: usize = 0;
    while k < goals.len()
        invariant
            k <= goals@.len(),
            forall|s: Stat| i64::MIN < #[trigger] g.total_spec(s) <= i64::MAX,
            rows@ == html_summary_rows(*g, goals@, failed@, k as int),
        decreases goals@.len() - k,
    {
        let goal = goals[k];
        let total = g.total(&goal.stat);
        let name = html_escape(goal.stat.display_name());
        let total_text = format_number(total);
        let min_col = min_column(goal.minimum);
        let flag = if failed_contains(failed, goal.stat) {
            " ⚠"
        } else {
            ""
        };
        rows.append("      <tr><td>");
        rows.append(name.as_str());
        rows.append("</td><td class=\"num\">");
        rows.append(total_text.as_str());
        rows.append("</td><td class=\"num\">");
        rows.append(min_col.as_str());
        rows.append("</td><td>");
        rows.append(goal_met_marker(goal.minimum, total));
        rows.append(flag);
        rows.append("</td></tr>\n");
        k += 1;
    }
    let mut w = "  <h2>Goal stat summary</h2>\n  <table>\n    <thead><tr><th>Stat</th><th class=\"num\">Total</th><th class=\"num\">Minimum</th><th>Met?</th></tr></thead>\n    <tbody>\n".to_owned();
    w.append(rows.as_str());
    w.append("    </tbody>\n  </table>\n");
    w
}

/// One `name | value` row per stat of `stats`, for the first `n`.
pub open spec fn html_value_rows(stats: Seq<Stat>, vals: Seq<i64>, n: int) -> Seq<char>
    decreases n,
{
    if n <= 0 {
        Seq::empty()
    } else {
        html_value_rows(stats, vals, n - 1) + "      <tr><td>"@ + html_escape_spec(display_name_spec(stats[n - 1]))
            + "</td><td class=\"num\">"@ + format_number_spec(vals[n - 1]) + "</td></tr>\n"@
    }
}

fn html_value_rows_section(stats: &Vec<Stat>, vals: &Vec<i64>) -> (r: String)
    requires
        stats@.len() == vals@.len(),
        forall|i: int| 0 <= i < vals@.len() ==> #[trigger] vals@[i] != i64::MIN,
    ensures
        r@ == html_value_rows(stats@, vals@, stats@.len() as int),
{
    let mut rows = String::new();
    let mut k: usize = 0;
    while k < stats.len()
        invariant
            k <= stats@.len(),
            stats@.len() == vals@.len(),
            forall|i: int| 0 <= i < vals@.len() ==> #[trigger] vals@[i] != i64::MIN,
            rows@ == html_value_rows(stats@, vals@, k as int),
        decreases stats@.len() - k,
    {
        let name = html_escape(stats[k].display_name());
        let value_text = format_number(vals[k]);
        rows.append("      <tr><td>");
        rows.append(name.as_str());
        rows.append("</td><td class=\"num\">");
        rows.append(value_text.as_str());
        rows.append("</td></tr>\n");
        k += 1;
    }
    rows
}

/// The projected tracked-stat table.
pub open spec fn html_tracked(g: GearSet) -> Seq<char> {
    "  <h2>Projected tracked stats</h2>\n  <p class=\"meta\">Effective totals worn (gear + essences + derived Base-stat contributions + Virtue fixed stats).</p>\n  <table>\n    <thead><tr><th>Stat</th><th class=\"num\">Total</th></tr></thead>\n    <tbody>\n"@ + html_value_rows(tracked_stats_spec(), totals_of(g, tracked_stats_spec()), 16) + "    </tbody>\n  </table>\n"@
}

/// The projected raw Base-stat table.
pub open spec fn html_base(projected: StatMap) -> Seq<char> {
    "  <h2>Projected raw Base stats</h2>\n  <p class=\"meta\">Combined Base-stat pool (innate + gear + essences + Virtues). These are derivation inputs only.</p>\n  <table>\n    <thead><tr><th>Base Stat</th><th class=\"num\">Total</th></tr></thead>\n    <tbody>\n"@ + html_value_rows(base_stats_spec(), values_of(projected, base_stats_spec()), 5) + "    </tbody>\n  </table>\n"@
}

fn html_tracked_section(g: &GearSet) -> (r: String)
    requires
        forall|s: Stat| i64::MIN < #[trigger] g.total_spec(s) <= i64::MAX,
    ensures
        r@ == html_tracked(*g),
{
    let stats = tracked_stats();
    let totals = gear_totals(g, &stats);
    let rows = html_value_rows_section(&stats, &totals);
    let mut w = "  <h2>Projected tracked stats</h2>\n  <p class=\"meta\">Effective totals worn (gear + essences + derived Base-stat contributions + Virtue fixed stats).</p>\n  <table>\n    <thead><tr><th>Stat</th><th class=\"num\">Total</th></tr></thead>\n    <tbody>\n".to_owned();
    w.append(rows.as_str());
    w.append("    </tbody>\n  </table>\n");
    w
}

fn html_base_section(projected: &StatMap) -> (r: String)
    requires
        forall|s: Stat| #[trigger] projected.value(s) != i64::MIN,
    ensures
        r@ == html_base(*projected),
{
    let stats = base_stats();
    let vals = map_values(projected, &stats);
    let rows = html_value_rows_section(&stats, &vals);
    let mut w = "  <h2>Projected raw Base stats</h2>\n  <p class=\"meta\">Combined Base-stat pool (innate + gear + essences + Virtues). These are derivation inputs only.</p>\n  <table>\n    <thead><tr><th>Base Stat</th><th class=\"num\">Total</th></tr></thead>\n    <tbody>\n".to_owned();
    w.append(rows.as_str());
    w.append("    </tbody>\n  </table>\n");
    w
}

/// The shortfall rows for the first `n` entries.
pub open spec fn html_failed_rows(failed: Seq<(Stat, i64, i64)>, n: int) -> Seq<char>
    decreases n,
{
    if n <= 0 {
        Seq::empty()
    } else {
        let f = failed[n - 1];
        html_failed_rows(failed, n - 1) + "      <tr><td>"@ + html_escape_spec(display_name_spec(f.0))
            + "</td><td class=\"num\">"@ + format_number_spec(f.1) + "</td><td class=\"num\">"@ + format_number_spec(f.2)
            + "</td><td class=\"num\">"@ + format_number_spec((f.1 - f.2) as i64) + "</td></tr>\n"@
    }
}

/// The closing banner: feasible, or the infeasible table.
pub open spec fn html_banner(feasible: bool, failed: Seq<(Stat, i64, i64)>) -> Seq<char> {
    if feasible {
        "  <p class=\"banner feasible\">✓ All stat minima met.</p>\n"@
    } else {
        "  <div class=\"banner infeasible\">✗ INFEASIBLE — not all stat minima can be met ✗</div>\n  <p>The following stats could not reach their minima with any combination of the available items:</p>\n  <table>\n    <thead><tr><th>Stat</th><th class=\"num\">Needed</th><th class=\"num\">Achieved</th><th class=\"num\">Short by</th></tr></thead>\n    <tbody>\n"@ + html_failed_rows(failed, failed.len() as int) + "    </tbody>\n  </table>\n  <p>The result shown gets your highest-priority goals as close to their targets as possible; once a goal is met, extra points in it are not pursued at the expense of lower-priority goals still short of target.</p>\n"@
    }
}

fn html_banner_section(feasible: bool, failed: &Vec<(Stat, i64, i64)>) -> (r: String)
    requires
        failed_printable(failed@),
    ensures
        r@ == html_banner(feasible, failed@),
{
    if feasible {
        return "  <p class=\"banner feasible\">✓ All stat minima met.</p>\n".to_owned();
    }
    let mut rows = String::new();
    let mut k: usize = 0;
    while k < failed.len()
        invariant
            k <= failed@.len(),
            failed_printable(failed@),
            rows@ == html_failed_rows(failed@, k as int),
        decreases failed@.len() - k,
    {
        let (stat, minimum, achieved) = failed[k];
        assert(failed@[k as int] == (stat, minimum, achieved));
        let name = html_escape(stat.display_name());
        let needed = format_number(minimum);
        let got = format_number(achieved);
        let short = format_number(minimum - achieved);
        rows.append("      <tr><td>");
        rows.append(name.as_str());
        rows.append("</td><td class=\"num\">");
        rows.append(needed.as_str());
        rows.append("</td><td class=\"num\">");
        rows.append(got.as_str());
        rows.append("</td><td class=\"num\">");
        rows.append(short.as_str());
        rows.append("</td></tr>\n");
        k += 1;
    }
    let mut w = "  <div class=\"banner infeasible\">✗ INFEASIBLE — not all stat minima can be met ✗</div>\n  <p>The following stats could not reach their minima with any combination of the available items:</p>\n  <table>\n    <thead><tr><th>Stat</th><th class=\"num\">Needed</th><th class=\"num\">Achieved</th><th class=\"num\">Short by</th></tr></thead>\n    <tbody>\n".to_owned();
    w.append(rows.as_str());
    w.append("    </tbody>\n  </table>\n  <p>The result shown gets your highest-priority goals as close to their targets as possible; once a goal is met, extra points in it are not pursued at the expense of lower-priority goals still short of target.</p>\n");
    w
}

/// The full HTML optimize report.
pub open spec fn optimize_report_html(
    result: OptimizeResult,
    goals: Seq<StatGoal>,
    character: Seq<char>,
    class: Seq<char>,
    input_file: Seq<char>,
    timestamp: Seq<char>,
    projected: StatMap,
) -> Seq<char> {
    html_head(character, class, input_file, timestamp) + html_warnings(crate::order::string_views(result.warnings@))
        + html_gear_table(result.gear_set) + html_summary(result.gear_set, goals, result.failed_minima@)
        + html_tracked(result.gear_set) + html_base(projected) + html_banner(result.feasible, result.failed_minima@)
        + "</body>\n</html>\n"@
}

/// Builds a self-contained HTML optimize report.
pub fn format_optimize_report_html(
    result: &OptimizeResult,
    goals: &[StatGoal],
    character: &str,
    class: &str,
    input_file: &str,
    timestamp: &str,
    projected_base_stats: &StatMap,
) -> (r: String)
    requires
        report_inputs_ok(*result, *projected_base_stats),
    ensures
        r@ == optimize_report_html(*result, goals@, character@, class@, input_file@, timestamp@, *projected_base_stats),
{
    let mut out = html_head_section(character, class, input_file, timestamp);
    let warnings = html_warnings_section(&result.warnings);
    out.append(warnings.as_str());
    let gear = html_gear_section(&result.gear_set);
    out.append(gear.as_str());
    let summary = html_summary_section(&result.gear_set, goals, &result.failed_minima);
    out.append(summary.as_str());
    let tracked_part = html_tracked_section(&result.gear_set);
    out.append(tracked_part.as_str());
    let base = html_base_section(projected_base_stats);
    out.append(base.as_str());
    let banner = html_banner_section(result.feasible, &result.failed_minima);
    out.append(banner.as_str());
    out.append("</body>\n</html>\n");
    out
}

// ── Base-stats report ────────────────────────────────────────────────────────

/// The `lgo base-stats` report: the raw innate Base stats, then the
/// tracked-stat contributions derived from them.
pub open spec fn base_stats_report_text(
    character: Seq<char>,
    class: Seq<char>,
    input_file: Seq<char>,
    innate_base: StatMap,
    derived: StatMap,
) -> Seq<char> {
    "\n  LGO — Innate Base Stats\n  Character : "@ + character + " ("@ + class + ")\n  Stats file: "@ + input_file
        + "\n  "@ + repeat_spec('─', 34) + "\n\n  Raw Base stats from [InnateStats] (derivation inputs only):\n\n"@
        + value_rows(base_stats_spec(), values_of(innate_base, base_stats_spec()), 5)
        + "\n  Derived tracked-stat contributions (already included in optimize totals):\n\n"@ + value_rows(
        tracked_stats_spec(),
        values_of(derived, tracked_stats_spec()),
        16,
    ) + "  "@ + repeat_spec('─', 34) + "\n"@
}

/// Builds the `lgo base-stats` report. Base stats are derivation inputs only;
/// the derived contributions are already included in optimize totals.
pub fn format_base_stats_report(
    character: &str,
    class: &str,
    input_file: &str,
    innate_base: &StatMap,
    derived: &StatMap,
) -> (r: String)
    requires
        forall|s: Stat| #[trigger] innate_base.value(s) != i64::MIN,
        forall|s: Stat| #[trigger] derived.value(s) != i64::MIN,
    ensures
        r@ == base_stats_report_text(character@, class@, input_file@, *innate_base, *derived),
{
    let divider = repeat_char('─', 34);
    let bstats = base_stats();
    let bvals = map_values(innate_base, &bstats);
    let base_rows = value_rows_section(&bstats, &bvals);
    let tstats = tracked_stats();
    let tvals = map_values(derived, &tstats);
    let derived_rows = value_rows_section(&tstats, &tvals);
    let mut w = "\n  LGO — Innate Base Stats\n  Character : ".to_owned();
    w.append(character);
    w.append(" (");
    w.append(class);
    w.append(")\n  Stats file: ");
    w.append(input_file);
    w.append("\n  ");
    w.append(divider.as_str());
    w.append("\n\n  Raw Base stats from [InnateStats] (derivation inputs only):\n\n");
    w.append(base_rows.as_str());
    w.append("\n  Derived tracked-stat contributions (already included in optimize totals):\n\n");
    w.append(derived_rows.as_str());
    w.append("  ");
    w.append(divider.as_str());
    w.append("\n");
    w
}

// ── Scrap-gear report ────────────────────────────────────────────────────────

/// A build's goals as text, separated by single spaces.
pub open spec fn goals_line(goals: Seq<StatGoal>) -> Seq<char> {
    join_spec(goals.map_values(|g: StatGoal| goal_text(g)), " "@)
}

/// One `name: goals` line per evaluated build, for the first `n`.
pub open spec fn scrap_build_rows(builds: Seq<(String, Vec<StatGoal>)>, n: int) -> Seq<char>
    decreases n,
{
    if n <= 0 {
        Seq::empty()
    } else {
        scrap_build_rows(builds, n - 1) + "    "@ + builds[n - 1].0@ + ": "@ + goals_line(builds[n - 1].1@) + "\n"@
    }
}

/// The line of one unused item: its slot padded to twelve characters, its
/// name, how many are owned and the most that one build used.
pub open spec fn scrap_item_row(it: ScrapUnusedItem) -> Seq<char> {
    "    "@ + pad_right_spec(slot_display_spec(it.slot), 12) + " "@ + it.name@ + " (owned "@ + decimal_string(
        it.owned_count as nat,
    ) + ", most used by one build "@ + decimal_string(it.max_used_count as nat) + ")\n"@
}

/// One line per unused item, for the first `n`.
pub open spec fn scrap_item_rows(items: Seq<ScrapUnusedItem>, n: int) -> Seq<char>
    decreases n,
{
    if n <= 0 {
        Seq::empty()
    } else {
        scrap_item_rows(items, n - 1) + scrap_item_row(items[n - 1])
    }
}

/// The `lgo scrap-gear` report text.
pub open spec fn scrap_gear_report_text(
    character: Seq<char>,
    class: Seq<char>,
    input_file: Seq<char>,
    timestamp: Seq<char>,
    builds: Seq<(String, Vec<StatGoal>)>,
    unused: Seq<ScrapUnusedItem>,
) -> Seq<char> {
    "\n  LGO — Scrap Gear\n  Character : "@ + character + " ("@ + class + ")\n  Stats file: "@ + input_file
        + "\n  Generated : "@ + timestamp + "\n\n  Saved builds evaluated:\n"@ + scrap_build_rows(
        builds,
        builds.len() as int,
    ) + if unused.len() == 0 {
        "\n  Every owned item is used by at least one saved build.\n"@
    } else {
        "\n  Items not used by any saved build:\n"@ + scrap_item_rows(unused, unused.len() as int)
    }
}

fn goals_line_text(goals: &Vec<StatGoal>) -> (r: String)
    ensures
        r@ == goals_line(goals@),
{
    let ghost items = goals@.map_values(|g: StatGoal| goal_text(g));
    let mut r = String::new();
    let mut k: usize = 0;
    while k < goals.len()
        invariant
            k <= goals@.len(),
            items == goals@.map_values(|g: StatGoal| goal_text(g)),
            r@ == join_spec(items.subrange(0, k as int), " "@),
        decreases goals@.len() - k,
    {
        let text = goal_to_string(&goals[k]);
        let ghost sub = items.subrange(0, k + 1);
        assert(sub.drop_last() =~= items.subrange(0, k as int));
        if k > 0 {
            r.append(" ");
        } else {
            assert(items.subrange(0, k as int) =~= Seq::<Seq<char>>::empty());
        }
        r.append(text.as_str());
        k += 1;
    }
    assert(items.subrange(0, items.len() as int) =~= items);
    r
}

fn count_text(n: usize) -> (r: String)
    ensures
        r@ == decimal_string(n as nat),
{
    string_from_chars(decimal_chars(n as u64).as_slice())
}

fn scrap_item_line(it: &ScrapUnusedItem) -> (r: String)
    ensures
        r@ == scrap_item_row(*it),
{
    let slot = pad_right(it.slot.display_name(), 12);
    let owned = count_text(it.owned_count);
    let most = count_text(it.max_used_count);
    let mut w = "    ".to_owned();
    w.append(slot.as_str());
    w.append(" ");
    w.append(it.name.as_str());
    w.append(" (owned ");
    w.append(owned.as_str());
    w.append(", most used by one build ");
    w.append(most.as_str());
    w.append(")\n");
    w
}

/// Builds the `lgo scrap-gear` report: the header, one line per evaluated
/// build with its goals, then the owned items that no saved build needs (or
/// a line saying every owned item is used).
pub fn format_scrap_gear_report(
    character: &str,
    class: &str,
    input_file: &str,
    timestamp: &str,
    builds: &Vec<(String, Vec<StatGoal>)>,
    unused: &Vec<ScrapUnusedItem>,
) -> (r: String)
    ensures
        r@ == scrap_gear_report_text(character@, class@, input_file@, timestamp@, builds@, unused@),
{
    let mut w = "\n  LGO — Scrap Gear\n  Character : ".to_owned();
    w.append(character);
    w.append(" (");
    w.append(class);
    w.append(")\n  Stats file: ");
    w.append(input_file);
    w.append("\n  Generated : ");
    w.append(timestamp);
    w.append("\n\n  Saved builds evaluated:\n");
    let ghost head = w@;
    let mut k: usize = 0;
    while k < builds.len()
        invariant
            k <= builds@.len(),
            w@ == head + scrap_build_rows(builds@, k as int),
        decreases builds@.len() - k,
    {
        let goals = goals_line_text(&builds[k].1);
        w.append("    ");
        w.append(builds[k].0.as_str());
        w.append(": ");
        w.append(goals.as_str());
        w.append("\n");
        k += 1;
    }
    if unused.len() == 0 {
        w.append("\n  Every owned item is used by at least one saved build.\n");
        return w;
    }
    w.append("\n  Items not used by any saved build:\n");
    let ghost head2 = w@;
    let mut j: usize = 0;
    while j < unused.len()
        invariant
            j <= unused@.len(),
            w@ == head2 + scrap_item_rows(unused@, j as int),
        decreases unused@.len() - j,
    {
        let row = scrap_item_line(&unused[j]);
        w.append(row.as_str());
        j += 1;
    }
    w
}

} // verus!
