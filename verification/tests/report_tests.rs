use std::collections::HashMap;
use tera_statistics_analyser::bidir_map::class_catalog;
use tera_statistics_analyser::class::Class;
use tera_statistics_analyser::parse::Encounter;
use tera_statistics_analyser::parse::Members;
use tera_statistics_analyser::parse::StatsLog;
use tera_statistics_analyser::process::ExportClass;
use tera_statistics_analyser::process::ExportResult;
use tera_statistics_analyser::process::Fight;
use tera_statistics_analyser::report::dps_histogram;
use tera_statistics_analyser::report::export_all;
use tera_statistics_analyser::report::export_reports;
use tera_statistics_analyser::report::push_line;
use tera_statistics_analyser::report::render_classes;
use tera_statistics_analyser::report::render_healers;
use tera_statistics_analyser::report::render_reports;
use tera_statistics_analyser::report::render_rows;
use tera_statistics_analyser::report::Figure;
use tera_statistics_analyser::report::ReportFile;
use tera_statistics_analyser::report::WindowFigures;
use tera_statistics_analyser::store::store;
use tera_statistics_analyser::store::GlobalData;
use tera_statistics_analyser::time_slice::TimeSlice;
use tera_statistics_analyser::window::WindowLabel;
use tera_statistics_analyser::window::WindowResolver;

fn member(class: &str, dps: &str) -> Members {
    Members {
        buff_uptime: vec![],
        player_class: class.to_string(),
        player_dps: dps.to_string(),
        player_server: "Killian".to_string(),
    }
}

fn record(directory: &str, area: u32, boss: u32, time: u64, duration: u64, members: Vec<Members>) -> StatsLog {
    StatsLog {
        content: Encounter { area_id: area, boss_id: boss, fight_duration: duration, timestamp: time, members },
        directory: directory.to_string(),
    }
}

fn figures(count: usize, buckets: Vec<(u32, usize)>) -> ExportClass {
    let mut stepped_dps = HashMap::new();
    for (k, v) in buckets {
        stepped_dps.insert(k, v);
    }
    ExportClass { count, dps_median: 0, dps_percentile_90: 0, stepped_dps }
}

fn content<'a>(files: &'a Vec<ReportFile>, path: &str) -> &'a str {
    let found: Vec<&ReportFile> = files.iter().filter(|f| f.path == path).collect();
    assert_eq!(found.len(), 1, "{}", path);
    found[0].content.as_str()
}

#[test]
fn dense_histogram_has_a_row_for_every_step_up_to_the_maximum() {
    for (dps_max, step) in [(0u32, 1u32), (10, 1), (10, 3), (9, 3), (10, 11), (10, 10), (1000000, 100000), (999999, 100000), (5, u32::MAX)] {
        for class in [figures(0, vec![]), figures(3, vec![(0, 1), (step, 2)]), figures(9, vec![(7, 9)])] {
            let rows = dps_histogram(&class, dps_max, step);
            assert_eq!(rows.len() as u64, (dps_max / step) as u64 + 1, "{} {}", dps_max, step);
            for (k, row) in rows.iter().enumerate() {
                assert_eq!(row.0 as u64, k as u64 * step as u64);
                assert_eq!(row.1, class.stepped_dps.get(&row.0).copied().unwrap_or(0));
            }
        }
    }
}

#[test]
fn dense_histogram_reaches_the_largest_value_without_overflow() {
    let class = figures(1, vec![(4000000000, 1)]);
    let rows = dps_histogram(&class, u32::MAX, 1000000000);
    assert_eq!(rows, vec![(0, 0), (1000000000, 0), (2000000000, 0), (3000000000, 0), (4000000000, 1)]);
}

#[test]
fn rows_are_written_one_to_a_line() {
    assert_eq!(render_rows(&vec![]), "");
    assert_eq!(render_rows(&vec![(0, 0), (100000, 12), (200000, 0)]), "0:0\n100000:12\n200000:0\n");
    let class = figures(2, vec![(10, 2)]);
    let text = render_rows(&dps_histogram(&class, 25, 10));
    assert_eq!(text, "0:0\n10:2\n20:0\n");
    assert_eq!(text.lines().count(), 25 / 10 + 1);
}

#[test]
fn healer_histogram_is_written_sparsely() {
    assert_eq!(render_healers(&vec![]), "");
    assert_eq!(render_healers(&vec![0, 0, 0]), "");
    assert_eq!(render_healers(&vec![4, 0, 7]), "0:4\n2:7\n");
    assert_eq!(render_healers(&vec![0, 1, 0, 0]), "1:1\n");
}

#[test]
fn lines_are_key_colon_value() {
    let mut text = String::from("x");
    push_line(&mut text, "Archer", "12");
    push_line(&mut text, "", "");
    assert_eq!(text, "xArcher:12\n:\n");
}

#[test]
fn class_figures_are_written_under_the_names_of_the_catalog() {
    let catalog = class_catalog();
    let mut archer = figures(5, vec![]);
    archer.dps_median = 70;
    archer.dps_percentile_90 = 90;
    let mut warrior = figures(2, vec![]);
    warrior.dps_median = 7;
    warrior.dps_percentile_90 = 9;
    let classes = vec![(Class::Archer, archer), (Class::Warrior, warrior)];
    assert_eq!(render_classes(&classes, &catalog, Figure::Count), "Archer:5\nWarrior:2\n");
    assert_eq!(render_classes(&classes, &catalog, Figure::Median), "Archer:70\nWarrior:7\n");
    assert_eq!(render_classes(&classes, &catalog, Figure::Decile), "Archer:90\nWarrior:9\n");
    let mut names = tera_statistics_analyser::bidir_map::BidirMap::with_capacity(1);
    names.insert("Bow", Class::Archer);
    assert_eq!(render_classes(&classes, &names, Figure::Count), "Bow:5\nWarrior:2\n");
    assert_eq!(render_classes(&vec![], &catalog, Figure::Count), "");
}

#[test]
fn reports_of_a_store_are_complete() {
    let catalog = class_catalog();
    let resolver = WindowResolver::Slices(TimeSlice { all_time: vec![(1000, 2000)] });
    let mut data = GlobalData::new();
    let records = vec![
        record("EU.2018", 10, 5, 1000, 300, vec![member("Archer", "100000")]),
        record("EU.2018", 10, 5, 1500, 200, vec![member("Archer", "300000")]),
        record("EU.2018", 10, 5, 1999, 100, vec![member("Priest", "50000")]),
        record("EU.2018", 11, 1, 1999, 50, vec![member("Priest", "250000"), member("Mystic", "1")]),
        record("NA.2018", 10, 5, 1999, 40, vec![member("Archer", "1")]),
    ];
    store(records, 100000, &mut data, &catalog, &resolver);
    let files = export_reports("out", 300000, 100000, data, &catalog);
    let paths: Vec<&str> = files.iter().map(|f| f.path.as_str()).collect();
    assert_eq!(
        paths,
        vec![
            "out/clear_time/10-5/EU/1000-2000.txt",
            "out/dps/10-5/Archer/EU/1000-2000.txt",
            "out/dps/10-5/Priest/EU/1000-2000.txt",
            "out/dps_percentile_90/10-5/EU/1000-2000.txt",
            "out/class/10-5/EU/1000-2000.txt",
            "out/dps_median/10-5/EU/1000-2000.txt",
            "out/healers/10-5/EU/1000-2000.txt",
            "out/clear_time/11-1/EU/1000-2000.txt",
            "out/dps/11-1/Mystic/EU/1000-2000.txt",
            "out/dps/11-1/Priest/EU/1000-2000.txt",
            "out/dps_percentile_90/11-1/EU/1000-2000.txt",
            "out/class/11-1/EU/1000-2000.txt",
            "out/dps_median/11-1/EU/1000-2000.txt",
            "out/healers/11-1/EU/1000-2000.txt",
            "out/clear_time/10-5/NA/1000-2000.txt",
            "out/dps/10-5/Archer/NA/1000-2000.txt",
            "out/dps_percentile_90/10-5/NA/1000-2000.txt",
            "out/class/10-5/NA/1000-2000.txt",
            "out/dps_median/10-5/NA/1000-2000.txt",
            "out/healers/10-5/NA/1000-2000.txt",
            "out/class/EU/1000-2000.txt",
            "out/class/NA/1000-2000.txt",
        ]
    );
    assert_eq!(content(&files, "out/clear_time/10-5/EU/1000-2000.txt"), "200;300");
    assert_eq!(content(&files, "out/dps/10-5/Archer/EU/1000-2000.txt"), "0:0\n100000:1\n200000:0\n300000:1\n");
    assert_eq!(content(&files, "out/dps/10-5/Priest/EU/1000-2000.txt"), "0:1\n100000:0\n200000:0\n300000:0\n");
    assert_eq!(content(&files, "out/dps_percentile_90/10-5/EU/1000-2000.txt"), "Archer:300000\nPriest:50000\n");
    assert_eq!(content(&files, "out/class/10-5/EU/1000-2000.txt"), "Archer:2\nPriest:1\n");
    assert_eq!(content(&files, "out/dps_median/10-5/EU/1000-2000.txt"), "Archer:300000\nPriest:50000\n");
    assert_eq!(content(&files, "out/healers/10-5/EU/1000-2000.txt"), "0:2\n1:1\n");
    assert_eq!(content(&files, "out/healers/11-1/EU/1000-2000.txt"), "2:1\n");
    assert_eq!(content(&files, "out/clear_time/11-1/EU/1000-2000.txt"), "50;50");
    assert_eq!(content(&files, "out/dps/11-1/Priest/EU/1000-2000.txt"), "0:0\n100000:0\n200000:1\n300000:0\n");
    assert_eq!(content(&files, "out/class/EU/1000-2000.txt"), "Archer:2\nMystic:1\nPriest:2\n");
    assert_eq!(content(&files, "out/class/NA/1000-2000.txt"), "Archer:1\n");
    for file in &files {
        if file.path.starts_with("out/dps/") {
            assert_eq!(file.content.lines().count(), 300000 / 100000 + 1);
        }
    }
}

#[test]
fn reports_of_an_empty_store_are_none() {
    let catalog = class_catalog();
    assert!(export_reports("out", 10, 1, GlobalData::new(), &catalog).is_empty());
    assert!(export_all(GlobalData::new(), &catalog).is_empty());
    assert!(render_reports("out", 10, 1, &vec![], &catalog).is_empty());
}

#[test]
fn class_totals_add_up_over_encounters_of_the_same_window() {
    let catalog = class_catalog();
    let window = |area: u32, region: &str, label: WindowLabel, classes: Vec<(Class, ExportClass)>| WindowFigures {
        fight: Fight { area_id: area, boss_id: 1 },
        region: region.to_string(),
        label,
        result: ExportResult { class: classes, healers_number: vec![], clear_time_median: 1, clear_time_percentile_90: 2 },
    };
    let all = vec![
        window(1, "EU", WindowLabel::Patch("76".to_string()), vec![(Class::Archer, figures(2, vec![])), (Class::Ninja, figures(5, vec![]))]),
        window(2, "EU", WindowLabel::Patch("old".to_string()), vec![(Class::Archer, figures(100, vec![]))]),
        window(3, "EU", WindowLabel::Patch("76".to_string()), vec![(Class::Ninja, figures(7, vec![])), (Class::Warrior, figures(usize::MAX, vec![]))]),
        window(4, "NA", WindowLabel::Patch("76".to_string()), vec![(Class::Archer, figures(1000, vec![]))]),
        window(5, "EU", WindowLabel::Patch("76".to_string()), vec![(Class::Warrior, figures(usize::MAX, vec![]))]),
        window(6, "EU", WindowLabel::Slice(7, 6), vec![(Class::Lancer, figures(0, vec![]))]),
    ];
    let files = render_reports("t", 0, 1, &all, &catalog);
    let rollups: Vec<&ReportFile> = files.iter().filter(|f| f.path.matches('/').count() == 3).collect();
    let paths: Vec<&str> = rollups.iter().map(|f| f.path.as_str()).collect();
    assert_eq!(paths, vec!["t/class/EU/76.txt", "t/class/EU/old.txt", "t/class/NA/76.txt", "t/class/EU/7-6.txt"]);
    let twice = 2 * (usize::MAX as u128);
    assert_eq!(rollups[0].content, format!("Archer:2\nNinja:12\nWarrior:{}\n", twice));
    assert_eq!(rollups[1].content, "Archer:100\n");
    assert_eq!(rollups[2].content, "Archer:1000\n");
    assert_eq!(rollups[3].content, "");
}
