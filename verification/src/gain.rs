//! The data behind the secondary gain views: the 30-day savings graph, the
//! daily breakdown table and the single-day box.
//!
//! Each day of the stats store comes with the tokens its cost model counts
//! as saved. These functions select the days a view shows and compute every
//! integer the view prints; percentages, bars and colours are rendered from
//! these values by the caller.

use crate::savings::token_sum;
use crate::text::{chars_of, same_text, string_of_range};
use vstd::prelude::*;

verus! {

/// The number of most recent days the graph and the daily table show.
pub const RECENT_DAYS: usize = 30;

/// One day of the stats store, with the tokens its cost model counts as saved.
pub struct DayGain {
    /// The day, `YYYY-MM-DD`.
    pub date: String,
    pub commands: u64,
    pub input_tokens: u64,
    pub output_tokens: u64,
    /// The lean-ctx version that recorded the day; empty when unknown.
    pub version: String,
    pub saved_tokens: u64,
}

/// What a view shows of one day.
pub struct DayRow {
    pub date: String,
    /// The date without its `YYYY-` prefix (the whole date when it has none).
    pub date_short: String,
    pub commands: u64,
    pub input_tokens: u64,
    pub saved_tokens: u64,
    /// Input tokens not matched by output tokens (saturating at zero): the
    /// numerator of the day's savings rate, over `input_tokens`.
    pub input_saved: u64,
    /// `v<version>`, or `—` when the version is unknown.
    pub version_label: String,
}

/// The data of the savings graph.
pub struct GainGraph {
    /// The greatest saving of a shown day, at least 1 (the bars' scale).
    pub peak: u64,
    /// The shown days, oldest first.
    pub rows: Vec<DayRow>,
    /// Saved tokens over the shown days.
    pub total_saved: u64,
    /// Commands over the shown days.
    pub total_commands: u64,
}

/// The TOTAL row and the trend line of the daily table.
pub struct DailyTotals {
    /// The store's command counter.
    pub total_commands: u64,
    /// Input tokens over all days of the store.
    pub total_input: u64,
    /// Saved tokens over all days of the store.
    pub total_saved: u64,
    /// Input tokens not matched by output tokens, over all days of the store.
    pub total_input_saved: u64,
    /// The saved tokens of the shown days, oldest first (the sparkline).
    pub trend: Vec<u64>,
}

/// What the daily table (or the single-day box) shows.
pub enum GainDaily {
    /// A date was asked for and the store has no such day.
    NoDataForDate,
    /// The store has no day at all.
    NoDailyData,
    /// The rows shown, with the totals when no single date was asked for.
    Table { rows: Vec<DayRow>, totals: Option<DailyTotals> },
}

/// The UTF-8 width of a character (`char::len_utf8`).
pub open spec fn utf8_width(c: char) -> int {
    let u = c as u32;
    if u < 0x80 {
        1
    } else if u < 0x800 {
        2
    } else if u < 0x10000 {
        3
    } else {
        4
    }
}

/// The characters of `s` after its first `n` UTF-8 bytes; `None` when `s` is
/// shorter or byte `n` falls inside a character (`str::get(n..)`).
pub open spec fn utf8_skip(s: Seq<char>, n: int) -> Option<Seq<char>>
    decreases s.len(),
{
    if n == 0 {
        Some(s)
    } else if s.len() == 0 || utf8_width(s[0]) > n {
        None
    } else {
        utf8_skip(s.drop_first(), n - utf8_width(s[0]))
    }
}

/// The short form of a date: without its first five bytes when that is a
/// character boundary, else the whole date.
pub open spec fn short_date(date: Seq<char>) -> Seq<char> {
    match utf8_skip(date, 5) {
        Some(t) => t,
        None => date,
    }
}

/// The version column: `—` when unknown, else `v` and the version.
pub open spec fn version_text(v: Seq<char>) -> Seq<char> {
    if v.len() == 0 {
        "—"@
    } else {
        seq!['v'] + v
    }
}

/// Input tokens not matched by output tokens, saturating at zero.
pub open spec fn input_saved_of(d: DayGain) -> u64 {
    if d.input_tokens >= d.output_tokens {
        (d.input_tokens - d.output_tokens) as u64
    } else {
        0
    }
}

/// What a view shows of a day: (date, short date, commands, input, saved,
/// input saved, version).
pub open spec fn row_of(d: DayGain) -> (Seq<char>, Seq<char>, u64, u64, u64, u64, Seq<char>) {
    (
        d.date@,
        short_date(d.date@),
        d.commands,
        d.input_tokens,
        d.saved_tokens,
        input_saved_of(d),
        version_text(d.version@),
    )
}

/// The view of a shown row.
pub open spec fn row_view(r: DayRow) -> (Seq<char>, Seq<char>, u64, u64, u64, u64, Seq<char>) {
    (
        r.date@,
        r.date_short@,
        r.commands,
        r.input_tokens,
        r.saved_tokens,
        r.input_saved,
        r.version_label@,
    )
}

/// The most recent days of the store (at most thirty), oldest first.
pub open spec fn recent(days: Seq<DayGain>) -> Seq<DayGain> {
    if days.len() > RECENT_DAYS {
        days.subrange(days.len() - RECENT_DAYS, days.len() as int)
    } else {
        days
    }
}

/// Whether `peak` is the largest saving of the shown `rows`, or 1 when none
/// of them saved anything.
pub open spec fn is_peak_of(rows: Seq<DayRow>, peak: u64) -> bool {
    &&& forall|k: int| 0 <= k < rows.len() ==> #[trigger] rows[k].saved_tokens <= peak
    &&& (exists|k: int| 0 <= k < rows.len() && #[trigger] rows[k].saved_tokens == peak) || (peak == 1
        && forall|k: int| 0 <= k < rows.len() ==> #[trigger] rows[k].saved_tokens == 0)
}

/// The greatest of some amounts, or 0 when there are none.
pub open spec fn max_of(s: Seq<u64>) -> int
    decreases s.len(),
{
    if s.len() == 0 {
        0
    } else if max_of(s.drop_last()) >= s.last() {
        max_of(s.drop_last())
    } else {
        s.last() as int
    }
}

/// The saved tokens of some days.
pub open spec fn saved_of(days: Seq<DayGain>) -> Seq<u64> {
    days.map_values(|d: DayGain| d.saved_tokens)
}

/// The commands of some days.
pub open spec fn commands_of(days: Seq<DayGain>) -> Seq<u64> {
    days.map_values(|d: DayGain| d.commands)
}

/// The input tokens of some days.
pub open spec fn input_of(days: Seq<DayGain>) -> Seq<u64> {
    days.map_values(|d: DayGain| d.input_tokens)
}

/// The unmatched input tokens of some days.
pub open spec fn input_saved_all(days: Seq<DayGain>) -> Seq<u64> {
    days.map_values(|d: DayGain| input_saved_of(d))
}

/// The rows of some days.
pub open spec fn rows_of(days: Seq<DayGain>) -> Seq<(Seq<char>, Seq<char>, u64, u64, u64, u64, Seq<char>)> {
    days.map_values(|d: DayGain| row_of(d))
}

fn utf8_width_of(c: char) -> (w: usize)
    ensures
        w == utf8_width(c),
{
    let u = c as u32;
    if u < 0x80 {
        1
    } else if u < 0x800 {
        2
    } else if u < 0x10000 {
        3
    } else {
        4
    }
}

/// The short form of a date.
pub fn date_short(date: &str) -> (s: String)
    ensures
        s@ == short_date(date@),
{
    let c = chars_of(date);
    let mut i: usize = 0;
    let mut n: usize = 5;
    let mut fits = true;
    assert(c@.subrange(0, c.len() as int) =~= c@);
    while n > 0
        invariant
            c@ == date@,
            i <= c.len(),
            n <= 5,
            fits ==> utf8_skip(date@, 5) == utf8_skip(c@.subrange(i as int, c.len() as int), n as int),
            !fits ==> utf8_skip(date@, 5) is None,
            !fits ==> n == 0,
        decreases n,
    {
        let ghost rest = c@.subrange(i as int, c.len() as int);
        if i == c.len() {
            fits = false;
            n = 0;
        } else {
            let w = utf8_width_of(c[i]);
            assert(rest[0] == c@[i as int]);
            if w > n {
                fits = false;
                n = 0;
            } else {
                assert(rest.drop_first() =~= c@.subrange(i + 1, c.len() as int));
                n = n - w;
                i = i + 1;
            }
        }
    }
    if fits {
        string_of_range(&c, i, c.len())
    } else {
        date.to_owned()
    }
}

fn version_label(v: &str) -> (s: String)
    ensures
        s@ == version_text(v@),
{
    if v.unicode_len() == 0 {
        "—".to_owned()
    } else {
        let mut s = "v".to_owned();
        proof {
            reveal_strlit("v");
        }
        s.append(v);
        assert(s@ =~= seq!['v'] + v@);
        s
    }
}

fn day_row(d: &DayGain) -> (r: DayRow)
    ensures
        row_view(r) == row_of(*d),
{
    DayRow {
        date: d.date.clone(),
        date_short: date_short(d.date.as_str()),
        commands: d.commands,
        input_tokens: d.input_tokens,
        saved_tokens: d.saved_tokens,
        input_saved: d.input_tokens.saturating_sub(d.output_tokens),
        version_label: version_label(d.version.as_str()),
    }
}

/// The rows of `days[lo..hi]`.
fn rows_between(days: &Vec<DayGain>, lo: usize, hi: usize) -> (r: Vec<DayRow>)
    requires
        lo <= hi <= days.len(),
    ensures
        r@.map_values(|x: DayRow| row_view(x)) == rows_of(days@.subrange(lo as int, hi as int)),
{
    let mut r: Vec<DayRow> = Vec::new();
    let mut i: usize = lo;
    while i < hi
        invariant
            lo <= i <= hi <= days.len(),
            r@.map_values(|x: DayRow| row_view(x)) == rows_of(days@.subrange(lo as int, i as int)),
        decreases hi - i,
    {
        let row = day_row(&days[i]);
        let ghost before = r@.map_values(|x: DayRow| row_view(x));
        let ghost rv = row_view(row);
        r.push(row);
        assert(r@.map_values(|x: DayRow| row_view(x)) =~= before.push(rv));
        assert(days@.subrange(lo as int, i + 1) =~= days@.subrange(lo as int, i as int).push(days@[i as int]));
        assert(rows_of(days@.subrange(lo as int, i + 1)) =~= rows_of(days@.subrange(lo as int, i as int)).push(row_of(days@[i as int])));
        assert(r@.map_values(|x: DayRow| row_view(x)) =~= rows_of(
            days@.subrange(lo as int, i + 1),
        ));
        i = i + 1;
    }
    r
}

/// The index where the shown window of recent days begins.
fn recent_start(n: usize) -> (s: usize)
    ensures
        s == (if n > RECENT_DAYS {
            n - RECENT_DAYS
        } else {
            0
        }),
{
    if n > RECENT_DAYS {
        n - RECENT_DAYS
    } else {
        0
    }
}

proof fn lemma_token_sum_prefix(s: Seq<u64>, i: int)
    requires
        0 <= i <= s.len(),
        forall|k: int| 0 <= k < s.len() ==> s[k] >= 0,
    ensures
        token_sum(s.take(i)) <= token_sum(s),
    decreases s.len() - i,
{
    if i < s.len() {
        lemma_token_sum_prefix(s, i + 1);
        assert(s.take(i + 1).drop_last() =~= s.take(i));
    } else {
        assert(s.take(i) =~= s);
    }
}

/// The data of the 30-day savings graph; `None` when the store has no day.
pub fn gain_graph(days: &Vec<DayGain>) -> (g: Option<GainGraph>)
    requires
        token_sum(saved_of(recent(days@))) <= u64::MAX,
        token_sum(commands_of(recent(days@))) <= u64::MAX,
    ensures
        match g {
            None => days@.len() == 0,
            Some(g) => {
                &&& days@.len() > 0
                &&& g.rows@.map_values(|x: DayRow| row_view(x)) == rows_of(recent(days@))
                &&& g.peak == (if max_of(saved_of(recent(days@))) >= 1 {
                    max_of(saved_of(recent(days@)))
                } else {
                    1
                })
                &&& g.total_saved == token_sum(saved_of(recent(days@)))
                &&& g.total_commands == token_sum(commands_of(recent(days@)))
                &&& is_peak_of(g.rows@, g.peak)
            },
        },
{
    let n = days.len();
    if n == 0 {
        return None;
    }
    let start = recent_start(n);
    let ghost w = recent(days@);
    assert(w =~= days@.subrange(start as int, n as int));
    let rows = rows_between(days, start, n);
    let mut peak: u64 = 0;
    let mut total_saved: u64 = 0;
    let mut total_commands: u64 = 0;
    let mut i: usize = start;
    while i < n
        invariant
            n == days.len(),
            start <= i <= n,
            w == days@.subrange(start as int, n as int),
            token_sum(saved_of(w)) <= u64::MAX,
            token_sum(commands_of(w)) <= u64::MAX,
            peak == max_of(saved_of(days@.subrange(start as int, i as int))),
            total_saved == token_sum(saved_of(days@.subrange(start as int, i as int))),
            total_commands == token_sum(commands_of(days@.subrange(start as int, i as int))),
        decreases n - i,
    {
        let ghost pre = days@.subrange(start as int, i as int);
        let ghost post = days@.subrange(start as int, i + 1);
        proof {
            assert(saved_of(post).drop_last() =~= saved_of(pre));
            assert(commands_of(post).drop_last() =~= commands_of(pre));
            assert(saved_of(w).take(i + 1 - start) =~= saved_of(post));
            assert(commands_of(w).take(i + 1 - start) =~= commands_of(post));
            lemma_token_sum_prefix(saved_of(w), i + 1 - start);
            lemma_token_sum_prefix(commands_of(w), i + 1 - start);
        }
        let d = &days[i];
        if d.saved_tokens > peak {
            peak = d.saved_tokens;
        }
        total_saved = total_saved + d.saved_tokens;
        total_commands = total_commands + d.commands;
        i = i + 1;
    }
    if peak < 1 {
        peak = 1;
    }
    proof {
        assert(days@.subrange(start as int, n as int) == w);
        let sv = saved_of(w);
        lemma_peak_bounds_bars(sv);
        lemma_peak_attained(sv);
        let rv = rows.view().map_values(|x: DayRow| row_view(x));
        assert(rv == rows_of(w));
        assert(rv.len() == rows@.len());
        assert(rows_of(w).len() == w.len());
        assert(sv.len() == w.len());
        assert forall|k: int| 0 <= k < rows.len() implies #[trigger] rows@[k].saved_tokens == sv[k] by {
            assert(rv[k] == row_view(rows@[k]));
            assert(rows_of(w)[k] == row_of(w[k]));
            assert(sv[k] == w[k].saved_tokens);
        }
        assert forall|k: int| 0 <= k < rows.len() implies #[trigger] rows@[k].saved_tokens <= peak by {
            assert(sv[k] <= max_of(sv));
        }
        if max_of(sv) >= 1 {
            assert(peak == max_of(sv));
            let k = choose|k: int| 0 <= k < sv.len() && sv[k] == max_of(sv);
            assert(rows@[k].saved_tokens == peak);
            assert(exists|k: int| 0 <= k < rows.len() && #[trigger] rows@[k].saved_tokens == peak);
            assert(is_peak_of(rows@, peak));
        } else {
            assert forall|k: int| 0 <= k < rows.len() implies #[trigger] rows@[k].saved_tokens == 0 by {
                assert(sv[k] <= max_of(sv));
            }
            assert(is_peak_of(rows@, peak));
        }
    }
    Some(GainGraph { peak, rows, total_saved, total_commands })
}

/// The index of the first day of the store dated `date`.
fn find_day(days: &Vec<DayGain>, date: &str) -> (r: Option<usize>)
    ensures
        match r {
            Some(i) => i < days.len() && days@[i as int].date@ == date@ && forall|k: int|
                0 <= k < i ==> days@[k].date@ != date@,
            None => forall|k: int| 0 <= k < days.len() ==> days@[k].date@ != date@,
        },
{
    let mut i: usize = 0;
    while i < days.len()
        invariant
            i <= days.len(),
            forall|k: int| 0 <= k < i ==> days@[k].date@ != date@,
        decreases days.len() - i,
    {
        if same_text(days[i].date.as_str(), date) {
            return Some(i);
        }
        i = i + 1;
    }
    None
}

/// Whether a day is the first of `days` dated `date`.
pub open spec fn first_dated(days: Seq<DayGain>, date: Seq<char>, i: int) -> bool {
    &&& 0 <= i < days.len()
    &&& days[i].date@ == date
    &&& forall|k: int| 0 <= k < i ==> days[k].date@ != date
}

/// The data of the daily table: with a date, that day's row alone (or no data
/// for it); without, the most recent thirty days with the store-wide TOTAL
/// row and the trend line (or no data when the store is empty).
pub fn gain_daily(days: &Vec<DayGain>, total_commands: u64, date_filter: Option<&str>) -> (v:
    GainDaily)
    requires
        date_filter is None ==> token_sum(input_of(days@)) <= u64::MAX,
        date_filter is None ==> token_sum(saved_of(days@)) <= u64::MAX,
        date_filter is None ==> token_sum(input_saved_all(days@)) <= u64::MAX,
    ensures
        match date_filter {
            Some(d) => match v {
                GainDaily::NoDataForDate => forall|k: int|
                    0 <= k < days@.len() ==> days@[k].date@ != d@,
                GainDaily::Table { rows, totals } => totals is None && exists|i: int|
                    first_dated(days@, d@, i) && rows@.map_values(|x: DayRow| row_view(x)) == seq![
                        row_of(days@[i]),
                    ],
                GainDaily::NoDailyData => false,
            },
            None => match v {
                GainDaily::NoDailyData => days@.len() == 0,
                GainDaily::Table { rows, totals } => {
                    &&& days@.len() > 0
                    &&& rows@.map_values(|x: DayRow| row_view(x)) == rows_of(recent(days@))
                    &&& totals matches Some(t) && {
                        &&& t.total_commands == total_commands
                        &&& t.total_input == token_sum(input_of(days@))
                        &&& t.total_saved == token_sum(saved_of(days@))
                        &&& t.total_input_saved == token_sum(input_saved_all(days@))
                        &&& t.trend@ == saved_of(recent(days@))
                    }
                },
                GainDaily::NoDataForDate => false,
            },
        },
{
    match date_filter {
        Some(d) => match find_day(days, d) {
            Some(i) => {
                let rows = rows_between(days, i, i + 1);
                assert(days@.subrange(i as int, i + 1) =~= seq![days@[i as int]]);
                assert(first_dated(days@, d@, i as int));
                GainDaily::Table { rows, totals: None }
            },
            None => GainDaily::NoDataForDate,
        },
        None => {
            let n = days.len();
            if n == 0 {
                return GainDaily::NoDailyData;
            }
            let start = recent_start(n);
            let ghost w = recent(days@);
            assert(w =~= days@.subrange(start as int, n as int));
            let rows = rows_between(days, start, n);
            let mut trend: Vec<u64> = Vec::new();
            let mut total_input: u64 = 0;
            let mut total_saved: u64 = 0;
            let mut total_input_saved: u64 = 0;
            let mut i: usize = 0;
            while i < n
                invariant
                    n == days.len(),
                    i <= n,
                    start <= n,
                    w == days@.subrange(start as int, n as int),
                    token_sum(input_of(days@)) <= u64::MAX,
                    token_sum(saved_of(days@)) <= u64::MAX,
                    token_sum(input_saved_all(days@)) <= u64::MAX,
                    total_input == token_sum(input_of(days@.take(i as int))),
                    total_saved == token_sum(saved_of(days@.take(i as int))),
                    total_input_saved == token_sum(input_saved_all(days@.take(i as int))),
                    i <= start ==> trend@.len() == 0,
                    i > start ==> trend@ == saved_of(days@.subrange(start as int, i as int)),
                decreases n - i,
            {
                let ghost pre = days@.take(i as int);
                let ghost post = days@.take(i + 1);
                proof {
                    assert(input_of(post).drop_last() =~= input_of(pre));
                    assert(saved_of(post).drop_last() =~= saved_of(pre));
                    assert(input_saved_all(post).drop_last() =~= input_saved_all(pre));
                    assert(input_of(days@).take(i + 1) =~= input_of(post));
                    assert(saved_of(days@).take(i + 1) =~= saved_of(post));
                    assert(input_saved_all(days@).take(i + 1) =~= input_saved_all(post));
                    lemma_token_sum_prefix(input_of(days@), i + 1);
                    lemma_token_sum_prefix(saved_of(days@), i + 1);
                    lemma_token_sum_prefix(input_saved_all(days@), i + 1);
                }
                let d = &days[i];
                total_input = total_input + d.input_tokens;
                total_saved = total_saved + d.saved_tokens;
                total_input_saved = total_input_saved + d.input_tokens.saturating_sub(
                    d.output_tokens,
                );
                if i >= start {
                    trend.push(d.saved_tokens);
                    assert(trend@ =~= saved_of(days@.subrange(start as int, i + 1)));
                }
                i = i + 1;
            }
            proof {
                assert(days@.take(n as int) =~= days@);
                if n <= start {
                    assert(false);
                }
            }
            GainDaily::Table {
                rows,
                totals: Some(
                    DailyTotals { total_commands, total_input, total_saved, total_input_saved, trend },
                ),
            }
        },
    }
}

/// The graph's scale bounds every bar: no shown day saved more than the peak,
/// so every bar's ratio is at most one.
pub proof fn lemma_peak_bounds_bars(s: Seq<u64>)
    ensures
        forall|k: int| 0 <= k < s.len() ==> #[trigger] s[k] <= max_of(s),
        max_of(s) >= 0,
    decreases s.len(),
{
    if s.len() > 0 {
        let t = s.drop_last();
        lemma_peak_bounds_bars(t);
        assert forall|k: int| 0 <= k < s.len() implies #[trigger] s[k] <= max_of(s) by {
            if k < t.len() {
                assert(t[k] == s[k]);
            }
        }
    }
}

/// The peak of non-empty amounts is one of them: the largest saving is a
/// saving that some day actually made.
pub proof fn lemma_peak_attained(s: Seq<u64>)
    ensures
        s.len() > 0 ==> exists|k: int| 0 <= k < s.len() && #[trigger] s[k] == max_of(s),
    decreases s.len(),
{
    if s.len() > 1 {
        let t = s.drop_last();
        lemma_peak_attained(t);
        if max_of(t) >= s.last() {
            let k = choose|k: int| 0 <= k < t.len() && #[trigger] t[k] == max_of(t);
            assert(s[k] == t[k]);
        } else {
            assert(s[s.len() - 1] == max_of(s));
        }
    } else if s.len() == 1 {
        assert(s.drop_last().len() == 0);
        assert(max_of(s.drop_last()) == 0);
        assert(s[0] == max_of(s));
    }
}

} // verus!
