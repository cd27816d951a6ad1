use vstd::prelude::*;
use crate::ranking::{lemma_ranking_exists, precedes, rank_descending, ranked, ranking};

verus! {

/// How many spenders a report lists at most.
pub const TOP_SPENDER_LIMIT: usize = 10;

/// One entry of a per-room or per-model tally: its name and the rank key of its amount
/// (a larger amount has a larger key, equal amounts have equal keys).
#[derive(Debug, Clone)]
pub struct Tally {
    pub name: String,
    pub rank: u64,
}

/// A spender chosen for a report: its label (`room:…` or `model:…`) and the position of
/// its entry in the rooms followed by the models.
#[derive(Debug, Clone)]
pub struct Spender {
    pub label: String,
    pub source: usize,
}

/// One line of a report's room or model section: a name, its amount as shown, and the
/// rank key of that amount.
#[derive(Debug, Clone)]
pub struct ReportEntry {
    pub name: String,
    pub amount: String,
    pub rank: u64,
}

/// The content of a conservation report, with every amount already written out.
#[derive(Debug, Clone)]
pub struct ReportText {
    pub budget: String,
    pub spent: String,
    pub remaining: String,
    pub wasted: String,
    pub verified: bool,
    pub by_room: Vec<ReportEntry>,
    pub by_model: Vec<ReportEntry>,
    /// Name and shown amount of each top spender, in the order to print.
    pub top_spenders: Vec<(String, String)>,
}

pub open spec fn tally_keys(t: Seq<Tally>) -> Seq<u64> {
    t.map_values(|e: Tally| e.rank)
}

pub open spec fn room_label(room: Seq<char>) -> Seq<char> {
    "room:"@ + room
}

pub open spec fn model_label(model: Seq<char>) -> Seq<char> {
    "model:"@ + model
}

/// The positions of the chosen spenders' entries.
pub open spec fn spender_sources(top: Seq<Spender>) -> Seq<usize> {
    top.map_values(|s: Spender| s.source)
}

/// The labels of all spenders: the rooms, then the models.
pub open spec fn spender_labels(rooms: Seq<Tally>, models: Seq<Tally>) -> Seq<Seq<char>> {
    rooms.map_values(|e: Tally| room_label(e.name@)) + models.map_values(
        |e: Tally| model_label(e.name@),
    )
}

/// The rank keys of all spenders, in the order of `spender_labels`.
pub open spec fn spender_keys(rooms: Seq<Tally>, models: Seq<Tally>) -> Seq<u64> {
    tally_keys(rooms) + tally_keys(models)
}

/// Chooses the top spenders among the rooms and the models together: the
/// `TOP_SPENDER_LIMIT` entries with the largest amounts, largest first, entries with
/// equal amounts in the order rooms then models.
pub fn top_spenders(rooms: &Vec<Tally>, models: &Vec<Tally>) -> (top: Vec<Spender>)
    ensures
        top@.map_values(|s: Spender| s.source) == ranking(
            spender_keys(rooms@, models@),
            TOP_SPENDER_LIMIT as nat,
        ),
        forall|i: int|
            0 <= i < top.len() ==> (#[trigger] top@[i]).label@ == spender_labels(rooms@, models@)[top@[i].source as int],
        // At most ten spenders, drawn from the rooms and the models together.
        top.len() == if rooms.len() + models.len() <= 10 { rooms.len() + models.len() } else { 10 },
        forall|i: int| 0 <= i < top.len() ==> (#[trigger] top@[i]).source < rooms.len() + models.len(),
        // Each spender is labelled after its own room or model.
        forall|i: int| 0 <= i < top.len() ==> (#[trigger] top@[i]).label@ == if (top@[i].source as int) < rooms.len() {
            "room:"@ + rooms@[top@[i].source as int].name@
        } else {
            "model:"@ + models@[top@[i].source - rooms.len()].name@
        },
        // Largest amount first; equal amounts in the order rooms, then models.
        forall|i: int, j: int| 0 <= i < j < top.len() ==> {
            let a = (#[trigger] top@[i]).source as int;
            let b = (#[trigger] top@[j]).source as int;
            let ka = if a < rooms.len() { rooms@[a].rank } else { models@[a - rooms.len()].rank };
            let kb = if b < rooms.len() { rooms@[b].rank } else { models@[b - rooms.len()].rank };
            ka > kb || (ka == kb && a < b)
        },
        // No spender left out ranks before one that is listed.
        forall|x: usize, i: int|
            x < rooms.len() + models.len() && !#[trigger] spender_sources(top@).contains(x)
                && 0 <= i < top.len() ==> {
                let a = (#[trigger] top@[i]).source as int;
                let ka = if a < rooms.len() { rooms@[a].rank } else { models@[a - rooms.len()].rank };
                let kx = if (x as int) < rooms.len() { rooms@[x as int].rank } else { models@[x - rooms.len()].rank };
                ka > kx || (ka == kx && a < x)
            },
{
    let ghost all_labels = spender_labels(rooms@, models@);
    let ghost all_keys = spender_keys(rooms@, models@);
    let mut labels: Vec<String> = Vec::new();
    let mut keys: Vec<u64> = Vec::new();
    let mut i: usize = 0;
    while i < rooms.len()
        invariant
            i <= rooms.len(),
            labels.len() == i,
            keys.len() == i,
            all_labels == spender_labels(rooms@, models@),
            all_keys == spender_keys(rooms@, models@),
            forall|k: int| 0 <= k < i ==> (#[trigger] labels@[k])@ == all_labels[k],
            forall|k: int| 0 <= k < i ==> #[trigger] keys@[k] == all_keys[k],
        decreases rooms.len() - i,
    {
        let mut label = "room:".to_owned();
        label.append(rooms[i].name.as_str());
        labels.push(label);
        keys.push(rooms[i].rank);
        i = i + 1;
    }
    let mut j: usize = 0;
    while j < models.len()
        invariant
            j <= models.len(),
            labels.len() == rooms.len() + j,
            keys.len() == rooms.len() + j,
            all_labels == spender_labels(rooms@, models@),
            all_keys == spender_keys(rooms@, models@),
            forall|k: int| 0 <= k < rooms.len() + j ==> (#[trigger] labels@[k])@ == all_labels[k],
            forall|k: int| 0 <= k < rooms.len() + j ==> #[trigger] keys@[k] == all_keys[k],
        decreases models.len() - j,
    {
        let mut label = "model:".to_owned();
        label.append(models[j].name.as_str());
        labels.push(label);
        keys.push(models[j].rank);
        j = j + 1;
    }
    assert(keys@ =~= all_keys);
    let order = rank_descending(&keys, TOP_SPENDER_LIMIT);
    let mut top: Vec<Spender> = Vec::new();
    let mut k: usize = 0;
    while k < order.len()
        invariant
            k <= order.len(),
            ranked(all_keys, order@, TOP_SPENDER_LIMIT as nat),
            labels.len() == all_keys.len(),
            labels.len() == all_labels.len(),
            all_labels == spender_labels(rooms@, models@),
            forall|m: int| 0 <= m < labels.len() ==> (#[trigger] labels@[m])@ == all_labels[m],
            top.len() == k,
            forall|m: int| 0 <= m < k ==> (#[trigger] top@[m]).source == order@[m],
            forall|m: int| 0 <= m < k ==> (#[trigger] top@[m]).label@ == all_labels[top@[m].source as int],
        decreases order.len() - k,
    {
        let src: usize = order[k];
        assert(order@[k as int] < all_keys.len());
        top.push(Spender { label: labels[src].clone(), source: src });
        k = k + 1;
    }
    assert(top@.map_values(|s: Spender| s.source) =~= order@);
    proof {
        lemma_spender_keys(rooms@, models@);
        lemma_spender_labels(rooms@, models@);
        assert forall|i: int, j: int| 0 <= i < j < top.len() implies {
            let a = (#[trigger] top@[i]).source as int;
            let b = (#[trigger] top@[j]).source as int;
            let ka = if a < rooms.len() { rooms@[a].rank } else { models@[a - rooms.len()].rank };
            let kb = if b < rooms.len() { rooms@[b].rank } else { models@[b - rooms.len()].rank };
            ka > kb || (ka == kb && a < b)
        } by {
            assert(order@[i] == top@[i].source && order@[j] == top@[j].source);
            assert(crate::ranking::precedes(all_keys, order@[i] as int, order@[j] as int));
        }
        assert forall|x: usize, i: int|
            x < rooms.len() + models.len() && !#[trigger] spender_sources(top@).contains(x)
                && 0 <= i < top.len() implies {
                let a = (#[trigger] top@[i]).source as int;
                let ka = if a < rooms.len() { rooms@[a].rank } else { models@[a - rooms.len()].rank };
                let kx = if (x as int) < rooms.len() { rooms@[x as int].rank } else { models@[x - rooms.len()].rank };
                ka > kx || (ka == kx && a < x)
            } by {
            assert(order@[i] == top@[i].source);
            assert(spender_sources(top@) =~= order@);
            assert(!order@.contains(x));
            assert(crate::ranking::precedes(all_keys, order@[i] as int, x as int));
        }
    }
    top
}

/// The key by which a spender is ranked is its own tally's rank: the rooms' ranks,
/// then the models', each unchanged.
pub proof fn lemma_spender_keys(rooms: Seq<Tally>, models: Seq<Tally>)
    ensures
        spender_keys(rooms, models).len() == rooms.len() + models.len(),
        forall|i: int| 0 <= i < rooms.len() ==> #[trigger] spender_keys(rooms, models)[i] == rooms[i].rank,
        forall|i: int|
            rooms.len() <= i < rooms.len() + models.len() ==> #[trigger] spender_keys(rooms, models)[i]
                == models[i - rooms.len()].rank,
{
}

/// A spender's label is `room:` and its room's name, or `model:` and its model's name,
/// in the order rooms, then models.
pub proof fn lemma_spender_labels(rooms: Seq<Tally>, models: Seq<Tally>)
    ensures
        spender_labels(rooms, models).len() == rooms.len() + models.len(),
        forall|i: int| 0 <= i < rooms.len() ==> #[trigger] spender_labels(rooms, models)[i] == "room:"@ + rooms[i].name@,
        forall|i: int|
            rooms.len() <= i < rooms.len() + models.len() ==> #[trigger] spender_labels(rooms, models)[i]
                == "model:"@ + models[i - rooms.len()].name@,
{
}

pub open spec fn views(lines: Seq<String>) -> Seq<Seq<char>> {
    lines.map_values(|s: String| s@)
}

/// Lines joined by newline characters, with none after the last.
pub open spec fn join_lines(lines: Seq<Seq<char>>) -> Seq<char>
    decreases lines.len(),
{
    if lines.len() == 0 {
        Seq::empty()
    } else if lines.len() == 1 {
        lines[0]
    } else {
        join_lines(lines.drop_last()) + "\n"@ + lines.last()
    }
}

pub open spec fn entry_line(name: Seq<char>, amount: Seq<char>) -> Seq<char> {
    "  "@ + name + ": "@ + amount
}

pub open spec fn entry_keys(entries: Seq<ReportEntry>) -> Seq<u64> {
    entries.map_values(|e: ReportEntry| e.rank)
}

/// The lines of a room or model section's entries, largest amount first, entries with
/// equal amounts in their given order.
pub open spec fn ranked_entry_lines(entries: Seq<ReportEntry>) -> Seq<Seq<char>> {
    ranking(entry_keys(entries), entries.len()).map_values(
        |k: usize| entry_line(entries[k as int].name@, entries[k as int].amount@),
    )
}

/// A section: nothing where it has no entries, else an empty line, its title and its
/// entries.
pub open spec fn section(title: Seq<char>, entries: Seq<Seq<char>>) -> Seq<Seq<char>> {
    if entries.len() == 0 {
        Seq::empty()
    } else {
        seq![Seq::empty(), title] + entries
    }
}

pub open spec fn verified_mark(verified: bool) -> Seq<char> {
    if verified { "✓"@ } else { "✗"@ }
}

/// The lines of a rendered report.
pub open spec fn report_lines(t: ReportText) -> Seq<Seq<char>> {
    seq![
        "=== Conservation Report ==="@,
        "Budget:     "@ + t.budget@,
        "Spent:      "@ + t.spent@,
        "Remaining:  "@ + t.remaining@,
        "Wasted:     "@ + t.wasted@,
        "Verified:   "@ + verified_mark(t.verified),
    ] + section("By Room:"@, ranked_entry_lines(t.by_room@)) + section(
        "By Model:"@,
        ranked_entry_lines(t.by_model@),
    ) + section(
        "Top Spenders:"@,
        t.top_spenders@.map_values(|p: (String, String)| entry_line(p.0@, p.1@)),
    )
}

fn labelled(label: &str, value: &str) -> (line: String)
    ensures
        line@ == label@ + value@,
{
    let mut line = label.to_owned();
    line.append(value);
    line
}

fn entry_text(name: &String, amount: &String) -> (line: String)
    ensures
        line@ == entry_line(name@, amount@),
{
    let mut line = "  ".to_owned();
    line.append(name.as_str());
    line.append(": ");
    line.append(amount.as_str());
    line
}

/// Appends a room or model section to `lines`.
fn push_ranked_section(lines: &mut Vec<String>, title: &str, entries: &Vec<ReportEntry>)
    ensures
        views(final(lines)@) == views(old(lines)@) + section(title@, ranked_entry_lines(entries@)),
{
    let ghost start = views(lines@);
    let mut keys: Vec<u64> = Vec::new();
    let mut i: usize = 0;
    while i < entries.len()
        invariant
            i <= entries.len(),
            keys.len() == i,
            forall|k: int| 0 <= k < i ==> #[trigger] keys@[k] == entries@[k].rank,
        decreases entries.len() - i,
    {
        keys.push(entries[i].rank);
        i = i + 1;
    }
    assert(keys@ =~= entry_keys(entries@));
    let order = rank_descending(&keys, entries.len());
    let ghost body = ranked_entry_lines(entries@);
    assert(body.len() == entries.len());
    if entries.len() == 0 {
        assert(views(lines@) =~= start + section(title@, body));
        return;
    }
    lines.push(String::new());
    lines.push(title.to_owned());
    let ghost head = views(lines@);
    assert(head =~= start + seq![Seq::empty(), title@]);
    let mut k: usize = 0;
    while k < order.len()
        invariant
            k <= order.len(),
            order@ == ranking(entry_keys(entries@), entries.len() as nat),
            ranked(entry_keys(entries@), order@, entries.len() as nat),
            body == ranked_entry_lines(entries@),
            views(lines@) =~= head + body.take(k as int),
        decreases order.len() - k,
    {
        let e: usize = order[k];
        let line = entry_text(&entries[e].name, &entries[e].amount);
        let ghost prev = lines@;
        lines.push(line);
        assert(views(lines@) =~= views(prev).push(line@));
        assert(body[k as int] == line@);
        assert(body.take(k + 1) =~= body.take(k as int).push(body[k as int]));
        k = k + 1;
    }
    assert(body.take(k as int) =~= body);
}

/// Joins lines with newline characters.
fn join_with_newlines(lines: &Vec<String>) -> (text: String)
    ensures
        text@ == join_lines(views(lines@)),
{
    let n: usize = lines.len();
    if n == 0 {
        return String::new();
    }
    let mut text = lines[0].clone();
    let mut i: usize = 1;
    assert(views(lines@).take(1).drop_last() =~= Seq::<Seq<char>>::empty());
    while i < n
        invariant
            1 <= i <= n,
            n == lines.len(),
            text@ == join_lines(views(lines@).take(i as int)),
        decreases n - i,
    {
        text.append("\n");
        text.append(lines[i].as_str());
        assert(views(lines@).take(i + 1).drop_last() =~= views(lines@).take(i as int));
        i = i + 1;
    }
    assert(views(lines@).take(n as int) =~= views(lines@));
    text
}

impl ReportText {
    /// Render the report as a human-readable string: a header with the totals and the
    /// verification mark, then the rooms and the models, each largest amount first, and
    /// the top spenders; a section without entries is left out.
    pub fn render(&self) -> (text: String)
        ensures
            text@ == join_lines(report_lines(*self)),
    {
        let mut lines: Vec<String> = Vec::new();
        lines.push("=== Conservation Report ===".to_owned());
        lines.push(labelled("Budget:     ", self.budget.as_str()));
        lines.push(labelled("Spent:      ", self.spent.as_str()));
        lines.push(labelled("Remaining:  ", self.remaining.as_str()));
        lines.push(labelled("Wasted:     ", self.wasted.as_str()));
        let mark: &str = if self.verified { "✓" } else { "✗" };
        lines.push(labelled("Verified:   ", mark));
        let ghost header = views(lines@);
        assert(header =~= seq![
            "=== Conservation Report ==="@,
            "Budget:     "@ + self.budget@,
            "Spent:      "@ + self.spent@,
            "Remaining:  "@ + self.remaining@,
            "Wasted:     "@ + self.wasted@,
            "Verified:   "@ + verified_mark(self.verified),
        ]);
        push_ranked_section(&mut lines, "By Room:", &self.by_room);
        push_ranked_section(&mut lines, "By Model:", &self.by_model);
        let ghost before_top = views(lines@);
        assert(before_top == header + section("By Room:"@, ranked_entry_lines(self.by_room@))
            + section("By Model:"@, ranked_entry_lines(self.by_model@)));
        let ghost top = self.top_spenders@.map_values(|p: (String, String)| entry_line(p.0@, p.1@));
        if self.top_spenders.len() > 0 {
            lines.push(String::new());
            lines.push("Top Spenders:".to_owned());
            let ghost head = views(lines@);
            let mut k: usize = 0;
            while k < self.top_spenders.len()
                invariant
                    k <= self.top_spenders.len(),
                    top == self.top_spenders@.map_values(|p: (String, String)| entry_line(p.0@, p.1@)),
                    views(lines@) =~= head + top.take(k as int),
                decreases self.top_spenders.len() - k,
            {
                let line = entry_text(&self.top_spenders[k].0, &self.top_spenders[k].1);
                let ghost prev = lines@;
                lines.push(line);
                assert(views(lines@) =~= views(prev).push(line@));
                assert(top.take(k + 1) =~= top.take(k as int).push(top[k as int]));
                k = k + 1;
            }
            assert(top.take(k as int) =~= top);
            assert(head =~= before_top + seq![Seq::empty(), "Top Spenders:"@]);
            assert(views(lines@) =~= before_top + section("Top Spenders:"@, top));
        } else {
            assert(views(lines@) =~= before_top + section("Top Spenders:"@, top));
        }
        assert(views(lines@) =~= report_lines(*self));
        join_with_newlines(&lines)
    }
}

/// A room or model section has one line per entry, and the lines are the entries'
/// `  name: amount` lines in an order that lists every entry once, from the largest rank
/// down, entries with equal ranks in their given order.
pub proof fn lemma_section_lines(entries: Seq<ReportEntry>)
    requires
        entries.len() <= usize::MAX,
    ensures
        ranked_entry_lines(entries).len() == entries.len(),
        exists|order: Seq<usize>|
            {
                &&& order.len() == entries.len()
                &&& forall|x: usize| x < entries.len() ==> #[trigger] order.contains(x)
                &&& forall|i: int| 0 <= i < order.len() ==> #[trigger] order[i] < entries.len()
                &&& forall|i: int, j: int|
                    0 <= i < j < order.len() ==> entries[#[trigger] order[i] as int].rank > entries[#[trigger] order[j] as int].rank
                        || (entries[order[i] as int].rank == entries[order[j] as int].rank && order[i] < order[j])
                &&& forall|i: int|
                    0 <= i < order.len() ==> #[trigger] ranked_entry_lines(entries)[i] == "  "@
                        + entries[order[i] as int].name@ + ": "@ + entries[order[i] as int].amount@
            },
{
    let keys = entry_keys(entries);
    lemma_ranking_exists(keys, entries.len());
    let order = ranking(keys, entries.len());
    assert forall|i: int, j: int| 0 <= i < j < order.len() implies entries[#[trigger] order[i] as int].rank
        > entries[#[trigger] order[j] as int].rank
        || (entries[order[i] as int].rank == entries[order[j] as int].rank && order[i] < order[j]) by {
        assert(precedes(keys, order[i] as int, order[j] as int));
    }
}

pub open spec fn section_len(n: nat) -> int {
    if n == 0 { 0 } else { n + 2int }
}

/// The lines of a report: the six header lines; then, for the rooms and for the models
/// where there are any, an empty line, the section title and one line per entry; then,
/// where there are top spenders, an empty line, `Top Spenders:` and one `  name: amount`
/// line per top spender in the given order.
pub proof fn lemma_report_layout(t: ReportText)
    ensures
        report_lines(t).len() == 6 + section_len(ranked_entry_lines(t.by_room@).len())
            + section_len(ranked_entry_lines(t.by_model@).len()) + section_len(t.top_spenders@.len()),
        report_lines(t)[0] == "=== Conservation Report ==="@,
        report_lines(t)[1] == "Budget:     "@ + t.budget@,
        report_lines(t)[2] == "Spent:      "@ + t.spent@,
        report_lines(t)[3] == "Remaining:  "@ + t.remaining@,
        report_lines(t)[4] == "Wasted:     "@ + t.wasted@,
        report_lines(t)[5] == "Verified:   "@ + (if t.verified { "✓"@ } else { "✗"@ }),
        t.by_room@.len() > 0 ==> {
            &&& report_lines(t)[6] == Seq::<char>::empty()
            &&& report_lines(t)[7] == "By Room:"@
            &&& forall|i: int| 0 <= i < ranked_entry_lines(t.by_room@).len()
                ==> report_lines(t)[8 + i] == #[trigger] ranked_entry_lines(t.by_room@)[i]
        },
        t.by_model@.len() > 0 ==> {
            let at: int = 6 + section_len(ranked_entry_lines(t.by_room@).len());
            &&& report_lines(t)[at] == Seq::<char>::empty()
            &&& report_lines(t)[at + 1] == "By Model:"@
            &&& forall|i: int| 0 <= i < ranked_entry_lines(t.by_model@).len()
                ==> report_lines(t)[at + 2 + i] == #[trigger] ranked_entry_lines(t.by_model@)[i]
        },
        t.top_spenders@.len() > 0 ==> {
            let at: int = 6 + section_len(ranked_entry_lines(t.by_room@).len())
                + section_len(ranked_entry_lines(t.by_model@).len());
            &&& report_lines(t)[at] == Seq::<char>::empty()
            &&& report_lines(t)[at + 1] == "Top Spenders:"@
            &&& forall|i: int| 0 <= i < t.top_spenders@.len()
                ==> report_lines(t)[at + 2 + i] == "  "@ + (#[trigger] t.top_spenders@[i]).0@ + ": "@
                    + t.top_spenders@[i].1@
        },
{
    let rooms = ranked_entry_lines(t.by_room@);
    let models = ranked_entry_lines(t.by_model@);
    let top = t.top_spenders@.map_values(|p: (String, String)| entry_line(p.0@, p.1@));
    assert(t.by_room@.len() == t.by_room.len());
    assert(t.by_model@.len() == t.by_model.len());
    if t.by_room@.len() > 0 {
        lemma_section_lines(t.by_room@);
    } else {
        lemma_ranking_exists(entry_keys(t.by_room@), 0);
    }
    if t.by_model@.len() > 0 {
        lemma_section_lines(t.by_model@);
    } else {
        lemma_ranking_exists(entry_keys(t.by_model@), 0);
    }
    assert(rooms.len() == 0 <==> t.by_room@.len() == 0);
    assert(models.len() == 0 <==> t.by_model@.len() == 0);
    let head = seq![
        "=== Conservation Report ==="@,
        "Budget:     "@ + t.budget@,
        "Spent:      "@ + t.spent@,
        "Remaining:  "@ + t.remaining@,
        "Wasted:     "@ + t.wasted@,
        "Verified:   "@ + verified_mark(t.verified),
    ];
    let l = report_lines(t);
    let s1 = section("By Room:"@, rooms);
    let s2 = section("By Model:"@, models);
    let s3 = section("Top Spenders:"@, top);
    assert(l == head + s1 + s2 + s3);
    assert(s1.len() == section_len(rooms.len()));
    assert(s2.len() == section_len(models.len()));
    assert(s3.len() == section_len(t.top_spenders@.len()));
    if t.by_room@.len() > 0 {
        assert forall|i: int| 0 <= i < rooms.len() implies l[8 + i] == #[trigger] rooms[i] by {
            assert(l[8 + i] == s1[2 + i]);
        }
    }
    if t.by_model@.len() > 0 {
        let at: int = 6 + section_len(rooms.len());
        assert(l[at] == s2[0]);
        assert(l[at + 1] == s2[1]);
        assert forall|i: int| 0 <= i < models.len() implies l[at + 2 + i] == #[trigger] models[i] by {
            assert(l[at + 2 + i] == s2[2 + i]);
        }
    }
    if t.top_spenders@.len() > 0 {
        let at: int = 6 + section_len(rooms.len()) + section_len(models.len());
        assert(l[at] == s3[0]);
        assert(l[at + 1] == s3[1]);
        assert forall|i: int| 0 <= i < t.top_spenders@.len() implies l[at + 2 + i] == "  "@
            + (#[trigger] t.top_spenders@[i]).0@ + ": "@ + t.top_spenders@[i].1@ by {
            assert(l[at + 2 + i] == s3[2 + i]);
            assert(s3[2 + i] == top[i]);
        }
    }
}

/// Joining two non-empty runs of lines puts exactly one newline between them.
pub proof fn lemma_join_concat(a: Seq<Seq<char>>, b: Seq<Seq<char>>)
    requires
        a.len() > 0,
        b.len() > 0,
    ensures
        join_lines(a + b) == join_lines(a) + "\n"@ + join_lines(b),
    decreases b.len(),
{
    if b.len() == 1 {
        assert((a + b).drop_last() =~= a);
    } else {
        lemma_join_concat(a, b.drop_last());
        assert((a + b).drop_last() =~= a + b.drop_last());
    }
}

/// A single line is joined to itself, and no lines to nothing.
pub proof fn lemma_join_single(line: Seq<char>)
    ensures
        join_lines(seq![line]) == line,
        join_lines(Seq::<Seq<char>>::empty()) == Seq::<char>::empty(),
{
}

} // verus!
