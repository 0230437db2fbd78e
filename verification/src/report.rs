//! Reports: the text files that present the figures of every window, each
//! made of lines of the form `key:value`.

use crate::bidir_map::class_name;
use crate::bidir_map::BidirMap;
use crate::class::Class;
use crate::class::CLASS_COUNT;
use crate::process::counts_of;
use crate::process::export;
use crate::process::summarizes;
use crate::store::GlobalData;
use crate::store::StoreEntry;
use crate::process::lemma_counts;
use crate::process::ExportClass;
use crate::process::ExportResult;
use crate::process::Fight;
use crate::text::decimal;
use crate::text::decimal_digits;
use crate::text::hyphenated;
use crate::window::label_text;
use crate::window::WindowLabel;
use vstd::multiset::Multiset;
use vstd::prelude::*;
use vstd::string::StringExecFns;

verus! {

/// One report: where it is to be written, and what it holds.
pub struct ReportFile {
    pub path: String,
    pub content: String,
}

/// A report, as contracts see it.
pub struct FileModel {
    pub path: Seq<char>,
    pub content: Seq<char>,
}

impl View for ReportFile {
    type V = FileModel;

    open spec fn view(&self) -> FileModel {
        FileModel { path: self.path@, content: self.content@ }
    }
}

/// The models of a list of reports, in order.
pub open spec fn file_models(files: Seq<ReportFile>) -> Seq<FileModel> {
    Seq::new(files.len(), |i: int| files[i]@)
}

/// One line of a report: a key, a colon, a value, and the end of the line.
pub open spec fn line(key: Seq<char>, value: Seq<char>) -> Seq<char> {
    key + ":"@ + value + "\n"@
}

/// Adds one line to a text.
pub fn push_line(text: &mut String, key: &str, value: &str)
    ensures
        final(text)@ == old(text)@ + line(key@, value@),
{
    text.append(key);
    text.append(":");
    text.append(value);
    text.append("\n");
    assert(text@ =~= old(text)@ + line(key@, value@));
}

/// The number of rows of a dense histogram: one for each multiple of the
/// step from zero up to the largest damage shown.
pub open spec fn dense_len(dps_max: u32, step: u32) -> nat
    recommends
        step > 0,
{
    (dps_max / step + 1) as nat
}

/// The rows of a dense histogram, given what the histogram counts: row `k`
/// is the bucket `k * step` with its count, which is zero for a bucket that
/// was never counted.
pub open spec fn dense_rows(histogram: Map<u32, usize>, dps_max: u32, step: u32) -> Seq<
    (u32, usize),
>
    recommends
        step > 0,
{
    Seq::new(
        dense_len(dps_max, step),
        |k: int|
            (
                (k * step) as u32,
                if histogram.contains_key((k * step) as u32) {
                    histogram[(k * step) as u32]
                } else {
                    0
                },
            ),
    )
}

/// The dense histogram of a class: a row for every bucket from zero up to
/// `dps_max` in steps of `dps_steps`, whether the bucket was counted or not.
/// There are `dps_max / dps_steps + 1` rows, whatever the samples.
pub fn dps_histogram(figures: &ExportClass, dps_max: u32, dps_steps: u32) -> (rows: Vec<
    (u32, usize),
>)
    requires
        dps_steps > 0,
    ensures
        rows@ == dense_rows(figures.stepped_dps@, dps_max, dps_steps),
        rows@.len() == dps_max / dps_steps + 1,
        forall|k: int|
            0 <= k < rows@.len() ==> (#[trigger] rows@[k]).0 == k * dps_steps && rows@[k].1
                == Multiset::from_map(counts_of(figures.stepped_dps@)).count(rows@[k].0),
{
    broadcast use vstd::std_specs::hash::group_hash_axioms;

    let ghost target = dense_rows(figures.stepped_dps@, dps_max, dps_steps);
    let mut rows: Vec<(u32, usize)> = Vec::new();
    let mut dps: u64 = 0;
    proof {
        assert(rows@.len() * dps_steps == 0) by (nonlinear_arith)
            requires
                rows@.len() == 0,
        ;
    }
    while dps <= dps_max as u64
        invariant
            dps_steps > 0,
            target == dense_rows(figures.stepped_dps@, dps_max, dps_steps),
            dps == rows@.len() * dps_steps,
            rows@.len() <= dps_max / dps_steps + 1,
            dps <= dps_max + dps_steps,
            forall|k: int| 0 <= k < rows@.len() ==> rows@[k] == target[k],
            forall|k: int|
                0 <= k < rows@.len() ==> (#[trigger] rows@[k]).0 == k * dps_steps && rows@[k].1
                    == Multiset::from_map(counts_of(figures.stepped_dps@)).count(rows@[k].0),
        decreases dps_max + dps_steps - dps,
    {
        let ghost k = rows@.len() as int;
        let bucket = dps as u32;
        let count: usize = match figures.stepped_dps.get(&bucket) {
            Some(count) => *count,
            None => 0,
        };
        proof {
            lemma_counts(figures.stepped_dps@);
            assert(k < dps_max / dps_steps + 1) by (nonlinear_arith)
                requires
                    k * dps_steps <= dps_max,
                    dps_steps > 0,
                    k >= 0,
            ;
            assert((k + 1) * dps_steps == k * dps_steps + dps_steps) by (nonlinear_arith);
        }
        rows.push((bucket, count));
        dps = dps + dps_steps as u64;
    }
    proof {
        let n = rows@.len() as int;
        assert(n >= dps_max / dps_steps + 1) by (nonlinear_arith)
            requires
                n * dps_steps > dps_max,
                dps_steps > 0,
                n >= 0,
        ;
        assert(rows@ =~= target);
    }
    rows
}

/// The text of a list of rows: one line for each, the bucket as key and the
/// count as value.
pub open spec fn rows_text(rows: Seq<(u32, usize)>) -> Seq<char>
    decreases rows.len(),
{
    if rows.len() == 0 {
        Seq::empty()
    } else {
        rows_text(rows.drop_last()) + line(
            decimal_digits(rows.last().0 as nat),
            decimal_digits(rows.last().1 as nat),
        )
    }
}

/// The text of a list of rows: one line for each.
pub fn render_rows(rows: &Vec<(u32, usize)>) -> (text: String)
    ensures
        text@ == rows_text(rows@),
{
    let mut text = String::new();
    let mut i: usize = 0;
    assert(rows@.take(0) =~= Seq::<(u32, usize)>::empty());
    while i < rows.len()
        invariant
            i <= rows.len(),
            text@ == rows_text(rows@.take(i as int)),
        decreases rows.len() - i,
    {
        let row = rows[i];
        let key = decimal(row.0 as u128);
        let value = decimal(row.1 as u128);
        proof {
            assert(rows@.take(i as int + 1).drop_last() =~= rows@.take(i as int));
            assert(rows@.take(i as int + 1).last() == row);
        }
        push_line(&mut text, key.as_str(), value.as_str());
        i += 1;
    }
    assert(rows@.take(i as int) =~= rows@);
    text
}

/// The text of a healer histogram: one line for each number of healers that
/// was counted at least once, in ascending order, with its count.
pub open spec fn healers_text(histogram: Seq<usize>) -> Seq<char>
    decreases histogram.len(),
{
    if histogram.len() == 0 {
        Seq::empty()
    } else if histogram.last() > 0 {
        healers_text(histogram.drop_last()) + line(
            decimal_digits((histogram.len() - 1) as nat),
            decimal_digits(histogram.last() as nat),
        )
    } else {
        healers_text(histogram.drop_last())
    }
}

/// The text of a healer histogram: a line for each number of healers that
/// was counted, and none for the others.
pub fn render_healers(histogram: &Vec<usize>) -> (text: String)
    ensures
        text@ == healers_text(histogram@),
{
    let mut text = String::new();
    let mut i: usize = 0;
    assert(histogram@.take(0) =~= Seq::<usize>::empty());
    while i < histogram.len()
        invariant
            i <= histogram.len(),
            text@ == healers_text(histogram@.take(i as int)),
        decreases histogram.len() - i,
    {
        let count = histogram[i];
        proof {
            assert(histogram@.take(i as int + 1).drop_last() =~= histogram@.take(i as int));
            assert(histogram@.take(i as int + 1).last() == count);
        }
        if count > 0 {
            let key = decimal(i as u128);
            let value = decimal(count as u128);
            push_line(&mut text, key.as_str(), value.as_str());
        }
        i += 1;
    }
    assert(histogram@.take(i as int) =~= histogram@);
    text
}

/// The name that a class is reported under: the one that the catalog lists,
/// or the class's own name where the catalog lists none.
pub open spec fn name_of(listed: Map<Class, Seq<char>>, class: Class) -> Seq<char> {
    if listed.contains_key(class) {
        listed[class]
    } else {
        class_name(class)
    }
}

/// The name that a class is reported under.
pub fn reported_name(class_map: &BidirMap, class: Class) -> (name: String)
    ensures
        name@ == name_of(class_map@.second_first, class),
{
    match class_map.get_by_second(&class) {
        Some(name) => name.clone(),
        None => String::from_str(class.name()),
    }
}

/// One of the figures of a class.
#[derive(Clone, Copy, Debug, PartialEq, Eq, Structural)]
pub enum Figure {
    /// The number of samples.
    Count,
    /// The median of the samples.
    Median,
    /// The ninth decile of the samples.
    Decile,
}

/// The value of one of the figures of a class.
pub open spec fn figure_of(figures: ExportClass, which: Figure) -> nat {
    match which {
        Figure::Count => figures.count as nat,
        Figure::Median => figures.dps_median as nat,
        Figure::Decile => figures.dps_percentile_90 as nat,
    }
}

/// The text that gives one figure of every class: a line for each class,
/// the name of the class as key and the figure as value.
pub open spec fn classes_text(
    classes: Seq<(Class, ExportClass)>,
    listed: Map<Class, Seq<char>>,
    which: Figure,
) -> Seq<char>
    decreases classes.len(),
{
    if classes.len() == 0 {
        Seq::empty()
    } else {
        classes_text(classes.drop_last(), listed, which) + line(
            name_of(listed, classes.last().0),
            decimal_digits(figure_of(classes.last().1, which)),
        )
    }
}

/// The text that gives one figure of every class.
pub fn render_classes(
    classes: &Vec<(Class, ExportClass)>,
    class_map: &BidirMap,
    which: Figure,
) -> (text: String)
    ensures
        text@ == classes_text(classes@, class_map@.second_first, which),
{
    let mut text = String::new();
    let mut i: usize = 0;
    assert(classes@.take(0) =~= Seq::<(Class, ExportClass)>::empty());
    while i < classes.len()
        invariant
            i <= classes.len(),
            text@ == classes_text(classes@.take(i as int), class_map@.second_first, which),
        decreases classes.len() - i,
    {
        let entry = &classes[i];
        let name = reported_name(class_map, entry.0);
        let value = match which {
            Figure::Count => decimal(entry.1.count as u128),
            Figure::Median => decimal(entry.1.dps_median as u128),
            Figure::Decile => decimal(entry.1.dps_percentile_90 as u128),
        };
        proof {
            assert(classes@.take(i as int + 1).drop_last() =~= classes@.take(i as int));
            assert(classes@.take(i as int + 1).last() == *entry);
        }
        push_line(&mut text, name.as_str(), value.as_str());
        i += 1;
    }
    assert(classes@.take(i as int) =~= classes@);
    text
}

/// The path of a report on one window of one encounter: under the target
/// directory, the kind of report, the encounter, the region, and the window
/// as the name of the file.
pub open spec fn window_path(
    target: Seq<char>,
    kind: Seq<char>,
    fight: Seq<char>,
    region: Seq<char>,
    window: Seq<char>,
) -> Seq<char> {
    target + "/"@ + kind + "/"@ + fight + "/"@ + region + "/"@ + window + ".txt"@
}

/// The path of the damage histogram of one class in one window of one
/// encounter.
pub open spec fn class_path(
    target: Seq<char>,
    fight: Seq<char>,
    class: Seq<char>,
    region: Seq<char>,
    window: Seq<char>,
) -> Seq<char> {
    target + "/dps/"@ + fight + "/"@ + class + "/"@ + region + "/"@ + window + ".txt"@
}

/// The path of the report on the classes of one window of a region, all
/// encounters taken together.
pub open spec fn rollup_path(target: Seq<char>, region: Seq<char>, window: Seq<char>) -> Seq<
    char,
> {
    target + "/class/"@ + region + "/"@ + window + ".txt"@
}

/// The path of a report on one window of one encounter.
pub fn path_of(target: &str, kind: &str, fight: &str, region: &str, window: &str) -> (path: String)
    ensures
        path@ == window_path(target@, kind@, fight@, region@, window@),
{
    let mut path = String::from_str(target);
    path.append("/");
    path.append(kind);
    path.append("/");
    path.append(fight);
    path.append("/");
    path.append(region);
    path.append("/");
    path.append(window);
    path.append(".txt");
    assert(path@ =~= window_path(target@, kind@, fight@, region@, window@));
    path
}

/// The path of the damage histogram of one class in one window of one
/// encounter.
pub fn class_path_of(target: &str, fight: &str, class: &str, region: &str, window: &str) -> (path:
    String)
    ensures
        path@ == class_path(target@, fight@, class@, region@, window@),
{
    let mut path = String::from_str(target);
    path.append("/dps/");
    path.append(fight);
    path.append("/");
    path.append(class);
    path.append("/");
    path.append(region);
    path.append("/");
    path.append(window);
    path.append(".txt");
    assert(path@ =~= class_path(target@, fight@, class@, region@, window@));
    path
}

/// The path of the report on the classes of one window of a region.
pub fn rollup_path_of(target: &str, region: &str, window: &str) -> (path: String)
    ensures
        path@ == rollup_path(target@, region@, window@),
{
    let mut path = String::from_str(target);
    path.append("/class/");
    path.append(region);
    path.append("/");
    path.append(window);
    path.append(".txt");
    assert(path@ =~= rollup_path(target@, region@, window@));
    path
}

/// The figures of one window of one encounter.
pub struct WindowFigures {
    pub fight: Fight,
    pub region: String,
    pub label: WindowLabel,
    pub result: ExportResult,
}

/// The text of an encounter in report paths.
pub open spec fn fight_text(fight: Fight) -> Seq<char> {
    hyphenated(decimal_digits(fight.area_id as nat), decimal_digits(fight.boss_id as nat))
}

/// The text of the clear times of a window: median and ninth decile, with a
/// semicolon between them.
pub open spec fn clear_time_text(result: ExportResult) -> Seq<char> {
    decimal_digits(result.clear_time_median as nat) + ";"@ + decimal_digits(
        result.clear_time_percentile_90 as nat,
    )
}

/// The damage histograms of the classes of a window, one report for each
/// class.
pub open spec fn dps_files(
    target: Seq<char>,
    fight: Seq<char>,
    region: Seq<char>,
    window: Seq<char>,
    classes: Seq<(Class, ExportClass)>,
    listed: Map<Class, Seq<char>>,
    dps_max: u32,
    step: u32,
) -> Seq<FileModel>
    decreases classes.len(),
{
    if classes.len() == 0 {
        Seq::empty()
    } else {
        dps_files(
            target,
            fight,
            region,
            window,
            classes.drop_last(),
            listed,
            dps_max,
            step,
        ).push(
            FileModel {
                path: class_path(
                    target,
                    fight,
                    name_of(listed, classes.last().0),
                    region,
                    window,
                ),
                content: rows_text(dense_rows(classes.last().1.stepped_dps@, dps_max, step)),
            },
        )
    }
}

/// The reports on one window of one encounter: the clear times, the damage
/// histogram of each class, the ninth decile, the number of samples and the
/// median of the damage of every class, and the healer histogram.
pub open spec fn window_files(
    target: Seq<char>,
    figures: WindowFigures,
    listed: Map<Class, Seq<char>>,
    dps_max: u32,
    step: u32,
) -> Seq<FileModel> {
    let fight = fight_text(figures.fight);
    let region = figures.region@;
    let window = label_text(figures.label@);
    let classes = figures.result.class@;
    seq![
        FileModel {
            path: window_path(target, "clear_time"@, fight, region, window),
            content: clear_time_text(figures.result),
        },
    ] + dps_files(target, fight, region, window, classes, listed, dps_max, step) + seq![
        FileModel {
            path: window_path(target, "dps_percentile_90"@, fight, region, window),
            content: classes_text(classes, listed, Figure::Decile),
        },
        FileModel {
            path: window_path(target, "class"@, fight, region, window),
            content: classes_text(classes, listed, Figure::Count),
        },
        FileModel {
            path: window_path(target, "dps_median"@, fight, region, window),
            content: classes_text(classes, listed, Figure::Median),
        },
        FileModel {
            path: window_path(target, "healers"@, fight, region, window),
            content: healers_text(figures.result.healers_number@),
        },
    ]
}

/// Appending a report to a list appends its model to the models of the
/// list.
pub proof fn lemma_models_push(files: Seq<ReportFile>, file: ReportFile)
    ensures
        file_models(files.push(file)) == file_models(files).push(file@),
{
    assert(file_models(files.push(file)) =~= file_models(files).push(file@));
}

/// Adds the reports on one window of one encounter to a list of reports.
pub fn render_window(
    target: &str,
    figures: &WindowFigures,
    class_map: &BidirMap,
    dps_max: u32,
    dps_steps: u32,
    out: &mut Vec<ReportFile>,
)
    requires
        dps_steps > 0,
    ensures
        file_models(final(out)@) == file_models(old(out)@) + window_files(
            target@,
            *figures,
            class_map@.second_first,
            dps_max,
            dps_steps,
        ),
{
    let ghost listed = class_map@.second_first;
    let ghost start = file_models(out@);
    let fight = figures.fight.to_str();
    let window = figures.label.to_str();
    let region = figures.region.as_str();
    let ghost fight_model = fight_text(figures.fight);
    let ghost window_model = label_text(figures.label@);
    let ghost classes = figures.result.class@;

    let mut clear = decimal(figures.result.clear_time_median as u128);
    clear.append(";");
    let decile = decimal(figures.result.clear_time_percentile_90 as u128);
    clear.append(decile.as_str());
    assert(clear@ =~= clear_time_text(figures.result));
    let first = ReportFile {
        path: path_of(target, "clear_time", fight.as_str(), region, window.as_str()),
        content: clear,
    };
    proof {
        lemma_models_push(out@, first);
    }
    out.push(first);

    let ghost opened = file_models(out@);
    let mut i: usize = 0;
    proof {
        assert(classes.take(0) =~= Seq::<(Class, ExportClass)>::empty());
        assert(opened + Seq::<FileModel>::empty() =~= opened);
    }
    while i < figures.result.class.len()
        invariant
            i <= figures.result.class.len(),
            dps_steps > 0,
            listed == class_map@.second_first,
            classes == figures.result.class@,
            fight@ == fight_model,
            window@ == window_model,
            region@ == figures.region@,
            file_models(out@) == opened + dps_files(
                target@,
                fight_model,
                figures.region@,
                window_model,
                classes.take(i as int),
                listed,
                dps_max,
                dps_steps,
            ),
        decreases figures.result.class.len() - i,
    {
        let entry = &figures.result.class[i];
        let name = reported_name(class_map, entry.0);
        let rows = dps_histogram(&entry.1, dps_max, dps_steps);
        let file = ReportFile {
            path: class_path_of(
                target,
                fight.as_str(),
                name.as_str(),
                region,
                window.as_str(),
            ),
            content: render_rows(&rows),
        };
        proof {
            assert(classes.take(i as int + 1).drop_last() =~= classes.take(i as int));
            assert(classes.take(i as int + 1).last() == *entry);
            lemma_models_push(out@, file);
            let so_far = dps_files(
                target@,
                fight_model,
                figures.region@,
                window_model,
                classes.take(i as int),
                listed,
                dps_max,
                dps_steps,
            );
            assert((opened + so_far).push(file@) =~= opened + so_far.push(file@));
        }
        out.push(file);
        i += 1;
    }
    assert(classes.take(i as int) =~= classes);

    let ghost middle = file_models(out@);
    let deciles = ReportFile {
        path: path_of(target, "dps_percentile_90", fight.as_str(), region, window.as_str()),
        content: render_classes(&figures.result.class, class_map, Figure::Decile),
    };
    proof {
        lemma_models_push(out@, deciles);
    }
    out.push(deciles);
    let counts = ReportFile {
        path: path_of(target, "class", fight.as_str(), region, window.as_str()),
        content: render_classes(&figures.result.class, class_map, Figure::Count),
    };
    proof {
        lemma_models_push(out@, counts);
    }
    out.push(counts);
    let medians = ReportFile {
        path: path_of(target, "dps_median", fight.as_str(), region, window.as_str()),
        content: render_classes(&figures.result.class, class_map, Figure::Median),
    };
    proof {
        lemma_models_push(out@, medians);
    }
    out.push(medians);
    let healers = ReportFile {
        path: path_of(target, "healers", fight.as_str(), region, window.as_str()),
        content: render_healers(&figures.result.healers_number),
    };
    proof {
        lemma_models_push(out@, healers);
    }
    out.push(healers);
    proof {
        let tail = seq![deciles@, counts@, medians@, healers@];
        assert(file_models(out@) =~= middle + tail);
        assert(opened =~= start + seq![first@]);
        assert(file_models(out@) =~= start + window_files(
            target@,
            *figures,
            listed,
            dps_max,
            dps_steps,
        ));
    }
}

/// The entries of a list whose statistics hold at least one encounter, in
/// order.
pub open spec fn with_encounters(entries: Seq<StoreEntry>) -> Seq<StoreEntry>
    decreases entries.len(),
{
    if entries.len() == 0 {
        entries
    } else if entries.last().stats@.encounters() > 0 {
        with_encounters(entries.drop_last()).push(entries.last())
    } else {
        with_encounters(entries.drop_last())
    }
}

/// Whether a list of figures is that of the entries of a store: one for
/// each entry that holds an encounter, in order, under the entry's
/// encounter, region and window, with the figures of the entry's
/// statistics.
pub open spec fn figures_of(
    figures: Seq<WindowFigures>,
    entries: Seq<StoreEntry>,
    listed: Map<Class, Seq<char>>,
) -> bool {
    let held = with_encounters(entries);
    &&& figures.len() == held.len()
    &&& forall|i: int|
        0 <= i < figures.len() ==> {
            &&& (#[trigger] figures[i]).fight == held[i].fight
            &&& figures[i].region@ == held[i].region@
            &&& figures[i].label@ == held[i].label@
            &&& summarizes(figures[i].result, held[i].stats@, listed)
        }
}

/// The figures of every window of a store that holds an encounter.
pub fn export_all(data: GlobalData, class_map: &BidirMap) -> (r: Vec<WindowFigures>)
    requires
        data.wf(),
    ensures
        figures_of(r@, data.listing(), class_map@.second_first),
{
    let ghost listed = class_map@.second_first;
    let entries = data.into_entries();
    let ghost all = entries@;
    let mut out: Vec<WindowFigures> = Vec::new();
    assert(all.take(0) =~= Seq::<StoreEntry>::empty());
    for entry in it: entries.into_iter()
        invariant
            it.seq() == all,
            listed == class_map@.second_first,
            forall|i: int| 0 <= i < all.len() ==> (#[trigger] all[i]).stats.wf(),
            figures_of(out@, all.take(it.index() as int), listed),
    {
        let ghost k = it.index() as int;
        let ghost before = out@;
        let ghost held = with_encounters(all.take(k));
        proof {
            assert(all.take(k + 1).drop_last() =~= all.take(k));
            assert(all.take(k + 1).last() == entry);
            assert(entry == all[k]);
        }
        let StoreEntry { fight, region, label, stats } = entry;
        match export(stats, class_map) {
            Ok(result) => {
                out.push(WindowFigures { fight, region, label, result });
                proof {
                    let now = with_encounters(all.take(k + 1));
                    assert(now == held.push(entry));
                    assert forall|i: int| 0 <= i < out@.len() implies {
                        &&& (#[trigger] out@[i]).fight == now[i].fight
                        &&& out@[i].region@ == now[i].region@
                        &&& out@[i].label@ == now[i].label@
                        &&& summarizes(out@[i].result, now[i].stats@, listed)
                    } by {
                        if i < before.len() {
                            assert(out@[i] == before[i]);
                            assert(now[i] == held[i]);
                        }
                    }
                }
            },
            Err(_) => {},
        }
    }
    assert(all.take(all.len() as int) =~= all);
    out
}

/// Whether two windows of whatever encounters are the same window of the
/// same region.
pub open spec fn same_window(a: WindowFigures, b: WindowFigures) -> bool {
    a.region@ == b.region@ && a.label@ == b.label@
}

/// The number of samples that the figures of a window give for a class:
/// that of the first entry of the class, or zero where it has none.
pub open spec fn class_count(classes: Seq<(Class, ExportClass)>, class: Class) -> nat
    decreases classes.len(),
{
    if classes.len() == 0 {
        0
    } else if classes[0].0 == class {
        classes[0].1.count as nat
    } else {
        class_count(classes.drop_first(), class)
    }
}

/// The number of samples of a class in a window of a region, all
/// encounters taken together.
pub open spec fn class_total(figures: Seq<WindowFigures>, like: WindowFigures, class: Class) -> nat
    decreases figures.len(),
{
    if figures.len() == 0 {
        0
    } else {
        class_total(figures.drop_last(), like, class) + (if same_window(figures.last(), like) {
            class_count(figures.last().result.class@, class)
        } else {
            0
        })
    }
}

/// The text of the classes of a window of a region, all encounters taken
/// together: a line for each of the first `upto` classes that has samples,
/// in the order of the classes, with the number of its samples.
pub open spec fn totals_text(
    figures: Seq<WindowFigures>,
    like: WindowFigures,
    listed: Map<Class, Seq<char>>,
    upto: int,
) -> Seq<char>
    decreases upto,
{
    if upto <= 0 {
        Seq::empty()
    } else {
        let class = Class::at(upto - 1);
        let rest = totals_text(figures, like, listed, upto - 1);
        if class_total(figures, like, class) > 0 {
            rest + line(name_of(listed, class), decimal_digits(class_total(figures, like, class)))
        } else {
            rest
        }
    }
}

/// Whether the figures at a position are the first of their window and
/// region.
pub open spec fn first_of_window(figures: Seq<WindowFigures>, at: int) -> bool {
    forall|j: int| 0 <= j < at ==> !same_window(#[trigger] figures[j], figures[at])
}

/// The reports on the classes of every window of every region, all
/// encounters taken together: one for each window of a region among the
/// first `upto` figures, in the order in which the windows first occur.
pub open spec fn rollup_files(
    target: Seq<char>,
    figures: Seq<WindowFigures>,
    listed: Map<Class, Seq<char>>,
    upto: int,
) -> Seq<FileModel>
    decreases upto,
{
    if upto <= 0 {
        Seq::empty()
    } else {
        let rest = rollup_files(target, figures, listed, upto - 1);
        let like = figures[upto - 1];
        if first_of_window(figures, upto - 1) {
            rest.push(
                FileModel {
                    path: rollup_path(target, like.region@, label_text(like.label@)),
                    content: totals_text(figures, like, listed, CLASS_COUNT as int),
                },
            )
        } else {
            rest
        }
    }
}

/// The reports on the windows of every encounter, for the first `upto`
/// figures.
pub open spec fn all_window_files(
    target: Seq<char>,
    figures: Seq<WindowFigures>,
    listed: Map<Class, Seq<char>>,
    dps_max: u32,
    step: u32,
    upto: int,
) -> Seq<FileModel>
    decreases upto,
{
    if upto <= 0 {
        Seq::empty()
    } else {
        all_window_files(target, figures, listed, dps_max, step, upto - 1) + window_files(
            target,
            figures[upto - 1],
            listed,
            dps_max,
            step,
        )
    }
}

/// All the reports on a list of figures: those on each window of each
/// encounter, then those on the classes of each window of each region.
pub open spec fn reports(
    target: Seq<char>,
    figures: Seq<WindowFigures>,
    listed: Map<Class, Seq<char>>,
    dps_max: u32,
    step: u32,
) -> Seq<FileModel> {
    all_window_files(target, figures, listed, dps_max, step, figures.len() as int) + rollup_files(
        target,
        figures,
        listed,
        figures.len() as int,
    )
}

/// Whether two windows of whatever encounters are the same window of the
/// same region.
fn is_same_window(a: &WindowFigures, b: &WindowFigures) -> (r: bool)
    ensures
        r == same_window(*a, *b),
{
    a.region.as_str().eq(b.region.as_str()) && a.label.same(&b.label)
}

/// The number of samples that the figures of a window give for a class.
fn count_of_class(classes: &Vec<(Class, ExportClass)>, class: Class) -> (r: usize)
    ensures
        r == class_count(classes@, class),
{
    let mut i: usize = 0;
    assert(classes@.skip(0) =~= classes@);
    while i < classes.len()
        invariant
            i <= classes.len(),
            class_count(classes@, class) == class_count(classes@.skip(i as int), class),
        decreases classes.len() - i,
    {
        proof {
            assert(classes@.skip(i as int)[0] == classes@[i as int]);
            assert(classes@.skip(i as int).drop_first() =~= classes@.skip(i as int + 1));
        }
        if classes[i].0 == class {
            return classes[i].1.count;
        }
        i += 1;
    }
    0
}

/// The number of samples of a class in a window of a region, all
/// encounters taken together.
fn total_of_class(figures: &Vec<WindowFigures>, like: &WindowFigures, class: Class) -> (r: u128)
    ensures
        r == class_total(figures@, *like, class),
{
    let mut total: u128 = 0;
    let mut i: usize = 0;
    assert(figures@.take(0) =~= Seq::<WindowFigures>::empty());
    while i < figures.len()
        invariant
            i <= figures.len(),
            total == class_total(figures@.take(i as int), *like, class),
            total <= i * usize::MAX,
        decreases figures.len() - i,
    {
        proof {
            assert(figures@.take(i as int + 1).drop_last() =~= figures@.take(i as int));
            assert(figures@.take(i as int + 1).last() == figures@[i as int]);
            assert((i + 1) * usize::MAX == i * usize::MAX + usize::MAX) by (nonlinear_arith);
            assert(i * usize::MAX <= 0xFFFF_FFFF_FFFF_FFFF * 0xFFFF_FFFF_FFFF_FFFF)
                by (nonlinear_arith)
                requires
                    0 <= i <= 0xFFFF_FFFF_FFFF_FFFF,
                    0 <= usize::MAX <= 0xFFFF_FFFF_FFFF_FFFF,
            ;
        }
        if is_same_window(&figures[i], like) {
            let count = count_of_class(&figures[i].result.class, class);
            total = total + count as u128;
        }
        i += 1;
    }
    assert(figures@.take(i as int) =~= figures@);
    total
}

/// The text of the classes of a window of a region, all encounters taken
/// together.
fn render_totals(figures: &Vec<WindowFigures>, like: &WindowFigures, class_map: &BidirMap) -> (text:
    String)
    ensures
        text@ == totals_text(figures@, *like, class_map@.second_first, CLASS_COUNT as int),
{
    let mut text = String::new();
    let mut i: usize = 0;
    while i < CLASS_COUNT
        invariant
            i <= CLASS_COUNT,
            text@ == totals_text(figures@, *like, class_map@.second_first, i as int),
        decreases CLASS_COUNT - i,
    {
        match Class::from_index(i) {
            Some(class) => {
                let total = total_of_class(figures, like, class);
                if total > 0 {
                    let name = reported_name(class_map, class);
                    let value = decimal(total);
                    push_line(&mut text, name.as_str(), value.as_str());
                }
            },
            None => {},
        }
        i += 1;
    }
    text
}

/// All the reports on a list of figures: for each window of each encounter
/// the clear times, the damage histogram of each class, the ninth decile,
/// number of samples and median of every class and the healer histogram;
/// then for each window of each region the number of samples of every class
/// over all encounters.
pub fn render_reports(
    target: &str,
    dps_max: u32,
    dps_steps: u32,
    figures: &Vec<WindowFigures>,
    class_map: &BidirMap,
) -> (files: Vec<ReportFile>)
    requires
        dps_steps > 0,
    ensures
        file_models(files@) == reports(
            target@,
            figures@,
            class_map@.second_first,
            dps_max,
            dps_steps,
        ),
{
    let ghost listed = class_map@.second_first;
    let mut files: Vec<ReportFile> = Vec::new();
    let mut i: usize = 0;
    assert(file_models(files@) =~= Seq::<FileModel>::empty());
    while i < figures.len()
        invariant
            i <= figures.len(),
            dps_steps > 0,
            listed == class_map@.second_first,
            file_models(files@) == all_window_files(
                target@,
                figures@,
                listed,
                dps_max,
                dps_steps,
                i as int,
            ),
        decreases figures.len() - i,
    {
        render_window(target, &figures[i], class_map, dps_max, dps_steps, &mut files);
        i += 1;
    }
    let ghost windows = file_models(files@);
    let mut k: usize = 0;
    assert(windows + Seq::<FileModel>::empty() =~= windows);
    while k < figures.len()
        invariant
            k <= figures.len(),
            listed == class_map@.second_first,
            file_models(files@) == windows + rollup_files(target@, figures@, listed, k as int),
        decreases figures.len() - k,
    {
        let like = &figures[k];
        let mut first = true;
        let mut j: usize = 0;
        while j < k
            invariant
                j <= k,
                k < figures.len(),
                *like == figures@[k as int],
                first == (forall|a: int|
                    0 <= a < j ==> !same_window(#[trigger] figures@[a], figures@[k as int])),
            decreases k - j,
        {
            if is_same_window(&figures[j], like) {
                first = false;
            }
            j += 1;
        }
        if first {
            let window = like.label.to_str();
            let file = ReportFile {
                path: rollup_path_of(target, like.region.as_str(), window.as_str()),
                content: render_totals(figures, like, class_map),
            };
            proof {
                lemma_models_push(files@, file);
                let so_far = rollup_files(target@, figures@, listed, k as int);
                assert((windows + so_far).push(file@) =~= windows + so_far.push(file@));
            }
            files.push(file);
        }
        k += 1;
    }
    files
}

/// All the reports on a store: the figures of every window that holds an
/// encounter, rendered as `render_reports` renders them.
pub fn export_reports(
    target: &str,
    dps_max: u32,
    dps_steps: u32,
    raw_data: GlobalData,
    class_map: &BidirMap,
) -> (files: Vec<ReportFile>)
    requires
        raw_data.wf(),
        dps_steps > 0,
    ensures
        exists|figures: Seq<WindowFigures>|
            #![trigger figures_of(figures, raw_data.listing(), class_map@.second_first)]
            figures_of(figures, raw_data.listing(), class_map@.second_first) && file_models(files@)
                == reports(target@, figures, class_map@.second_first, dps_max, dps_steps),
{
    let figures = export_all(raw_data, class_map);
    let files = render_reports(target, dps_max, dps_steps, &figures, class_map);
    assert(figures_of(figures@, raw_data.listing(), class_map@.second_first));
    files
}

} // verus!
