use tera_statistics_analyser::bidir_map::class_catalog;
use tera_statistics_analyser::class::Class;
use tera_statistics_analyser::parse::BuffUptime;
use tera_statistics_analyser::parse::Encounter;
use tera_statistics_analyser::parse::Members;
use tera_statistics_analyser::parse::StatsLog;
use tera_statistics_analyser::process::export;
use tera_statistics_analyser::process::stepped_dps;
use tera_statistics_analyser::process::DataDetails;
use tera_statistics_analyser::process::DungeonData;
use tera_statistics_analyser::process::ExportError;
use tera_statistics_analyser::process::Fight;
use tera_statistics_analyser::store::store;
use tera_statistics_analyser::store::GlobalData;
use tera_statistics_analyser::time_slice::TimeSlice;
use tera_statistics_analyser::window::Patch;
use tera_statistics_analyser::window::RegionMap;
use tera_statistics_analyser::window::RegionPatches;
use tera_statistics_analyser::window::WindowLabel;
use tera_statistics_analyser::window::WindowResolver;

fn member(class: &str, dps: &str) -> Members {
    Members {
        buff_uptime: vec![BuffUptime { key: "1".to_string(), value: "2".to_string() }],
        player_class: class.to_string(),
        player_dps: dps.to_string(),
        player_server: "Killian".to_string(),
    }
}

fn record(directory: &str, area: u32, boss: u32, time: u64, duration: u64, members: Vec<Members>) -> StatsLog {
    StatsLog {
        content: Encounter { area_id: area, boss_id: boss, fight_duration: duration, timestamp: time, members },
        directory: directory.to_string(),
    }
}

fn one_slice() -> WindowResolver {
    WindowResolver::Slices(TimeSlice { all_time: vec![(1000, 2000)] })
}

fn slice() -> WindowLabel {
    WindowLabel::Slice(1000, 2000)
}

fn sorted(values: &Vec<u32>) -> Vec<u32> {
    let mut v = values.clone();
    v.sort();
    v
}

fn histogram(details: &DataDetails) -> Vec<(u32, usize)> {
    let mut rows: Vec<(u32, usize)> = details.stepped_dps().iter().map(|(k, v)| (*k, *v)).collect();
    rows.sort();
    rows
}

fn snapshot(data: &GlobalData) -> Vec<String> {
    let mut out = Vec::new();
    for i in 0..data.len() {
        let entry = data.entry(i);
        let mut text = format!("{}/{}/{}", entry.fight.to_str(), entry.region, entry.label.to_str());
        let mut times = entry.stats.clear_time().clone();
        times.sort();
        text.push_str(&format!(" times={:?} healers={:?}", times, trimmed(entry.stats.healers_number())));
        for class in class_catalog().iter_second_first() {
            let details = entry.stats.details(class);
            if details.len() > 0 {
                text.push_str(&format!(" {}={:?}{:?}", class.name(), sorted(details.dps()), histogram(details)));
            }
        }
        out.push(text);
    }
    out.sort();
    out
}

fn trimmed(histogram: &Vec<usize>) -> Vec<usize> {
    let mut v = histogram.clone();
    while v.last() == Some(&0) {
        v.pop();
    }
    v
}

#[test]
fn three_records_of_one_fight_in_one_window() {
    let catalog = class_catalog();
    let resolver = one_slice();
    let mut data = GlobalData::new();
    let records = vec![
        record("EU.2018", 10, 5, 1000, 300, vec![member("Archer", "100000")]),
        record("EU.2018", 10, 5, 1500, 200, vec![member("Archer", "300000")]),
        record("EU.2018", 10, 5, 1999, 100, vec![member("Priest", "50000")]),
    ];
    store(records, 100000, &mut data, &catalog, &resolver);
    assert_eq!(data.len(), 1);
    let stats = data.get(Fight { area_id: 10, boss_id: 5 }, "EU", &slice()).unwrap();
    let archer = stats.details(Class::Archer);
    assert_eq!(archer.dps(), &vec![100000, 300000]);
    assert_eq!(stats.details(Class::Priest).dps(), &vec![50000]);
    assert_eq!(stats.clear_time(), &vec![300, 200, 100]);
    assert_eq!(histogram(archer), vec![(100000, 1), (300000, 1)]);
    assert_eq!(archer.count(100000), 1);
    assert_eq!(archer.count(200000), 0);
    assert_eq!(archer.count(300000), 1);
    let priest = stats.details(Class::Priest);
    assert_eq!(priest.len(), 1);
    assert_eq!(histogram(priest), vec![(0, 1)]);
    assert_eq!(trimmed(stats.healers_number()), vec![2, 1]);
    assert_eq!(sorted_times(stats), vec![100, 200, 300]);

    let entries = data.into_entries();
    let entry = entries.into_iter().next().unwrap();
    let result = export(entry.stats, &catalog).unwrap();
    assert_eq!(result.clear_time_median, 200);
    assert_eq!(result.clear_time_percentile_90, 300);
    let classes: Vec<Class> = result.class.iter().map(|(c, _)| *c).collect();
    assert_eq!(classes, vec![Class::Archer, Class::Priest]);
    let archer = &result.class[0].1;
    assert_eq!(archer.count, 2);
    assert_eq!(archer.dps_median, 300000);
    assert_eq!(archer.dps_percentile_90, 300000);
    assert_eq!(archer.stepped_dps.get(&100000), Some(&1));
    assert_eq!(archer.stepped_dps.get(&300000), Some(&1));
    assert_eq!(archer.stepped_dps.len(), 2);
    let priest = &result.class[1].1;
    assert_eq!(priest.count, 1);
    assert_eq!(priest.dps_median, 50000);
}

fn sorted_times(stats: &DungeonData) -> Vec<u64> {
    let mut v = stats.clear_time().clone();
    v.sort();
    v
}

#[test]
fn priest_and_mystic_in_one_record_count_as_two_healers() {
    let catalog = class_catalog();
    let mut data = GlobalData::new();
    let records = vec![record("EU", 1, 1, 1500, 60, vec![member("Priest", "10"), member("Mystic", "20")])];
    store(records, 10, &mut data, &catalog, &one_slice());
    let stats = data.get(Fight { area_id: 1, boss_id: 1 }, "EU", &slice()).unwrap();
    assert_eq!(stats.healers_number(), &vec![0, 0, 1]);
    let more = vec![
        record("EU", 1, 1, 1500, 60, vec![member("Archer", "10")]),
        record("EU", 1, 1, 1500, 60, vec![member("Priest", "10"), member("Lancer", "1"), member("Priest", "20")]),
        record("EU", 1, 1, 1500, 60, vec![member("Mystic", "10")]),
    ];
    store(more, 10, &mut data, &catalog, &one_slice());
    let stats = data.get(Fight { area_id: 1, boss_id: 1 }, "EU", &slice()).unwrap();
    assert_eq!(stats.healers_number(), &vec![1, 1, 2]);
}

#[test]
fn merging_in_another_order_gives_the_same_store() {
    let catalog = class_catalog();
    let a = || record("EU.1", 10, 5, 1100, 300, vec![member("Archer", "100000"), member("Priest", "7")]);
    let b = || record("EU.2", 10, 5, 1200, 200, vec![member("Archer", "300000"), member("Nobody", "1")]);
    let c = || record("NA.3", 10, 5, 1300, 100, vec![member("Priest", "50000"), member("Mystic", "x")]);
    let mut first = GlobalData::new();
    store(vec![a(), b()], 100000, &mut first, &catalog, &one_slice());
    store(vec![c()], 100000, &mut first, &catalog, &one_slice());
    let mut second = GlobalData::new();
    store(vec![c(), a()], 100000, &mut second, &catalog, &one_slice());
    store(vec![b()], 100000, &mut second, &catalog, &one_slice());
    let mut third = GlobalData::new();
    store(vec![b(), c(), a()], 100000, &mut third, &catalog, &one_slice());
    assert_eq!(snapshot(&first), snapshot(&second));
    assert_eq!(snapshot(&first), snapshot(&third));
    assert_eq!(snapshot(&first).len(), 2);
}

#[test]
fn histogram_counts_add_up_to_the_number_of_samples() {
    let catalog = class_catalog();
    let mut data = GlobalData::new();
    let mut records = Vec::new();
    for i in 0..50u32 {
        records.push(record(
            "KR",
            1,
            2,
            1500,
            i as u64,
            vec![member("Gunner", &(i * 37).to_string()), member("Gunner", "oops"), member("Reaper", &(i % 3).to_string())],
        ));
    }
    store(records, 100, &mut data, &catalog, &one_slice());
    let stats = data.get(Fight { area_id: 1, boss_id: 2 }, "KR", &slice()).unwrap();
    for class in catalog.iter_second_first() {
        let details = stats.details(class);
        let total: usize = details.stepped_dps().values().sum();
        assert_eq!(total, details.dps().len());
        assert_eq!(details.len(), details.dps().len());
    }
    assert_eq!(stats.details(Class::Gunner).len(), 100);
    assert_eq!(stats.details(Class::Gunner).count(0), 53);
    assert_eq!(stats.details(Class::Reaper).len(), 50);
    assert_eq!(stats.details(Class::Reaper).count(0), 50);
    assert_eq!(stats.healers_number().iter().sum::<usize>(), stats.clear_time().len());
}

#[test]
fn records_outside_every_window_are_dropped() {
    let catalog = class_catalog();
    let mut data = GlobalData::new();
    let records = vec![
        record("EU", 1, 1, 999, 60, vec![member("Archer", "10")]),
        record("EU", 1, 1, 2000, 60, vec![member("Archer", "10")]),
        record("EU", 1, 1, u64::MAX, 60, vec![member("Archer", "10")]),
    ];
    store(records, 10, &mut data, &catalog, &one_slice());
    assert_eq!(data.len(), 0);
    assert!(data.get(Fight { area_id: 1, boss_id: 1 }, "EU", &slice()).is_none());
}

#[test]
fn unknown_classes_are_skipped_and_unreadable_damage_counts_as_zero() {
    let catalog = class_catalog();
    let mut data = GlobalData::new();
    let records = vec![record(
        "EU",
        1,
        1,
        1500,
        60,
        vec![member("Healer", "10"), member("Lancer", "-5"), member("Lancer", "4294967296"), member("Lancer", "12")],
    )];
    store(records, 5, &mut data, &catalog, &one_slice());
    let stats = data.get(Fight { area_id: 1, boss_id: 1 }, "EU", &slice()).unwrap();
    assert_eq!(sorted(stats.details(Class::Lancer).dps()), vec![0, 0, 12]);
    assert_eq!(histogram(stats.details(Class::Lancer)), vec![(0, 2), (10, 1)]);
    for class in catalog.iter_second_first() {
        if class != Class::Lancer {
            assert_eq!(stats.details(class).len(), 0);
        }
    }
    assert_eq!(stats.healers_number(), &vec![1]);
    assert_eq!(stats.clear_time(), &vec![60]);
}

#[test]
fn fights_regions_and_windows_are_kept_apart() {
    let catalog = class_catalog();
    let resolver = WindowResolver::Patches(RegionMap {
        regions: vec![
            RegionPatches {
                region: "EU".to_string(),
                patches: vec![
                    Patch { name: "old".to_string(), start: 0, end: 100 },
                    Patch { name: "new".to_string(), start: 100, end: 200 },
                ],
            },
            RegionPatches { region: "NA".to_string(), patches: vec![Patch { name: "old".to_string(), start: 0, end: 100 }] },
        ],
    });
    let mut data = GlobalData::new();
    let records = vec![
        record("EU.a", 1, 1, 50, 1, vec![member("Archer", "1")]),
        record("EU.b", 1, 1, 150, 2, vec![member("Archer", "2")]),
        record("NA.c", 1, 1, 50, 3, vec![member("Archer", "3")]),
        record("EU.d", 1, 2, 50, 4, vec![member("Archer", "4")]),
        record("EU.e", 2, 1, 50, 5, vec![member("Archer", "5")]),
        record("EU.f", 1, 1, 50, 6, vec![member("Archer", "6")]),
        record("EU.g", 1, 1, 100, 7, vec![member("Archer", "7")]),
        record("JP.h", 1, 1, 50, 8, vec![member("Archer", "8")]),
    ];
    store(records, 1, &mut data, &catalog, &resolver);
    assert_eq!(data.len(), 5);
    let old = WindowLabel::Patch("old".to_string());
    let new = WindowLabel::Patch("new".to_string());
    let at = |area: u32, boss: u32, region: &str, label: &WindowLabel| -> Vec<u64> {
        data.get(Fight { area_id: area, boss_id: boss }, region, label).unwrap().clear_time().clone()
    };
    assert_eq!(at(1, 1, "EU", &old), vec![1, 6]);
    assert_eq!(at(1, 1, "EU", &new), vec![2]);
    assert_eq!(at(1, 1, "NA", &old), vec![3]);
    assert_eq!(at(1, 2, "EU", &old), vec![4]);
    assert_eq!(at(2, 1, "EU", &old), vec![5]);
    assert!(data.get(Fight { area_id: 1, boss_id: 1 }, "JP", &old).is_none());
    assert!(data.get(Fight { area_id: 1, boss_id: 1 }, "NA", &new).is_none());
    assert!(data.get(Fight { area_id: 1, boss_id: 1 }, "EU", &WindowLabel::Slice(0, 100)).is_none());
}

#[test]
fn stepped_dps_rounds_down_to_a_multiple_of_the_step() {
    assert_eq!(stepped_dps(0, 100000), 0);
    assert_eq!(stepped_dps(99999, 100000), 0);
    assert_eq!(stepped_dps(100000, 100000), 100000);
    assert_eq!(stepped_dps(1234567, 100000), 1200000);
    assert_eq!(stepped_dps(u32::MAX, 1), u32::MAX);
    assert_eq!(stepped_dps(u32::MAX, u32::MAX), u32::MAX);
    assert_eq!(stepped_dps(u32::MAX - 1, u32::MAX), 0);
    assert_eq!(stepped_dps(u32::MAX, 1000), 4294967000);
}

#[test]
fn sample_set_counts_what_was_added() {
    let mut details = DataDetails::new();
    assert_eq!(details.len(), 0);
    assert_eq!(details.count(0), 0);
    details.add(15, 10);
    details.add(12, 10);
    details.add(7, 0);
    assert_eq!(details.dps(), &vec![15, 12, 7]);
    assert_eq!(details.count(10), 2);
    assert_eq!(details.count(0), 1);
    assert_eq!(details.count(20), 0);
    assert_eq!(details.len(), 3);
}

#[test]
fn fight_is_written_as_area_and_boss() {
    assert_eq!(Fight::new(10, 5).to_str(), "10-5");
    assert_eq!(Fight::new(0, 0).to_str(), "0-0");
    assert_eq!(Fight::new(u32::MAX, 444).to_str(), "4294967295-444");
    assert_eq!(Fight::new(3, 4), Fight { area_id: 3, boss_id: 4 });
}

#[test]
fn export_of_no_encounter_fails() {
    let catalog = class_catalog();
    assert_eq!(export(DungeonData::new(), &catalog).err(), Some(ExportError::NoEncounter));
}

#[test]
fn export_reads_median_and_ninth_decile_at_truncated_ranks() {
    let catalog = class_catalog();
    let resolver = one_slice();
    for n in 1..=25usize {
        let mut data = GlobalData::new();
        let mut records = Vec::new();
        for i in 0..n {
            let value = ((i * 7) % n) as u64 * 10;
            records.push(record("EU", 1, 1, 1500, value, vec![member("Slayer", &(value + 1).to_string())]));
        }
        store(records, 1, &mut data, &catalog, &resolver);
        let entry = data.into_entries().into_iter().next().unwrap();
        let result = export(entry.stats, &catalog).unwrap();
        let mut expected: Vec<u64> = (0..n).map(|i| ((i * 7) % n) as u64 * 10).collect();
        expected.sort();
        assert_eq!(result.clear_time_median, expected[n / 2], "n={}", n);
        assert_eq!(result.clear_time_percentile_90, expected[n * 9 / 10], "n={}", n);
        assert_eq!(result.class.len(), 1);
        assert_eq!(result.class[0].0, Class::Slayer);
        assert_eq!(result.class[0].1.count, n);
        assert_eq!(result.class[0].1.dps_median as u64, expected[n / 2] + 1);
        assert_eq!(result.class[0].1.dps_percentile_90 as u64, expected[n * 9 / 10] + 1);
        assert_eq!(result.healers_number, vec![n]);
    }
}

#[test]
fn export_leaves_out_classes_without_samples_or_name() {
    let mut names = tera_statistics_analyser::bidir_map::BidirMap::with_capacity(2);
    names.insert("Archer", Class::Archer);
    names.insert("Priest", Class::Priest);
    names.insert("Ninja", Class::Ninja);
    let catalog = class_catalog();
    let mut data = GlobalData::new();
    let records = vec![record(
        "EU",
        1,
        1,
        1500,
        9,
        vec![member("Warrior", "5"), member("Archer", "3"), member("Priest", "4"), member("Archer", "1")],
    )];
    store(records, 1, &mut data, &catalog, &one_slice());
    let entry = data.into_entries().into_iter().next().unwrap();
    let result = export(entry.stats, &names).unwrap();
    let classes: Vec<(Class, usize)> = result.class.iter().map(|(c, e)| (*c, e.count)).collect();
    assert_eq!(classes, vec![(Class::Archer, 2), (Class::Priest, 1)]);
    assert_eq!(result.class[0].1.dps_median, 3);
    assert_eq!(result.clear_time_median, 9);
    assert_eq!(result.healers_number, vec![0, 1]);
}

#[test]
fn values_are_kept_in_the_order_in_which_they_came() {
    let catalog = class_catalog();
    let resolver = one_slice();
    let mut data = GlobalData::new();
    let first = vec![
        record("EU", 1, 1, 1500, 30, vec![member("Archer", "9"), member("Priest", "1"), member("Archer", "3")]),
        record("NA", 1, 1, 1500, 5, vec![member("Archer", "77")]),
        record("EU", 1, 1, 1500, 10, vec![member("Priest", "8"), member("Archer", "6")]),
    ];
    store(first, 2, &mut data, &catalog, &resolver);
    let fight = Fight { area_id: 1, boss_id: 1 };
    {
        let stats = data.get(fight, "EU", &slice()).unwrap();
        assert_eq!(stats.details(Class::Archer).dps(), &vec![9, 3, 6]);
        assert_eq!(stats.details(Class::Priest).dps(), &vec![1, 8]);
        assert_eq!(stats.clear_time(), &vec![30, 10]);
        assert_eq!(data.get(fight, "NA", &slice()).unwrap().clear_time(), &vec![5]);
    }
    let second = vec![
        record("EU", 1, 1, 1999, 20, vec![member("Archer", "1")]),
        record("EU", 2, 2, 1999, 1, vec![member("Archer", "2")]),
        record("EU", 1, 1, 2000, 99, vec![member("Archer", "1000")]),
    ];
    store(second, 2, &mut data, &catalog, &resolver);
    let stats = data.get(fight, "EU", &slice()).unwrap();
    assert_eq!(stats.details(Class::Archer).dps(), &vec![9, 3, 6, 1]);
    assert_eq!(stats.details(Class::Priest).dps(), &vec![1, 8]);
    assert_eq!(stats.clear_time(), &vec![30, 10, 20]);
    assert_eq!(data.get(fight, "NA", &slice()).unwrap().details(Class::Archer).dps(), &vec![77]);
    let keys: Vec<String> = (0..data.len()).map(|i| format!("{}/{}", data.entry(i).fight.to_str(), data.entry(i).region)).collect();
    assert_eq!(keys, vec!["1-1/EU", "1-1/NA", "2-2/EU"]);
}

#[test]
fn export_hands_the_histograms_on_as_they_stood() {
    let catalog = class_catalog();
    let mut data = GlobalData::new();
    let records = vec![
        record("EU", 1, 1, 1500, 9, vec![member("Priest", "25"), member("Priest", "7"), member("Mystic", "21"), member("Lancer", "40")]),
        record("EU", 1, 1, 1500, 8, vec![member("Lancer", "41")]),
        record("EU", 1, 1, 1500, 7, vec![member("Lancer", "5"), member("Priest", "29")]),
    ];
    store(records, 10, &mut data, &catalog, &one_slice());
    let before_healers;
    let mut before: Vec<(Class, Vec<(u32, usize)>)> = Vec::new();
    {
        let stats = data.get(Fight { area_id: 1, boss_id: 1 }, "EU", &slice()).unwrap();
        before_healers = stats.healers_number().clone();
        for class in catalog.iter_second_first() {
            if stats.details(class).len() > 0 {
                before.push((class, histogram(stats.details(class))));
            }
        }
    }
    assert_eq!(before_healers, vec![1, 1, 0, 1]);
    let entry = data.into_entries().into_iter().next().unwrap();
    let result = export(entry.stats, &catalog).unwrap();
    assert_eq!(result.healers_number, before_healers);
    let after: Vec<(Class, Vec<(u32, usize)>)> = result
        .class
        .iter()
        .map(|(c, e)| {
            let mut rows: Vec<(u32, usize)> = e.stepped_dps.iter().map(|(k, v)| (*k, *v)).collect();
            rows.sort();
            (*c, rows)
        })
        .collect();
    assert_eq!(after, before);
    assert_eq!(
        after,
        vec![
            (Class::Lancer, vec![(0, 1), (40, 2)]),
            (Class::Mystic, vec![(20, 1)]),
            (Class::Priest, vec![(0, 1), (20, 2)]),
        ]
    );
    for (_, rows) in &after {
        assert!(rows.iter().all(|(_, count)| *count > 0));
    }
    assert_ne!(result.healers_number.last(), Some(&0));
}
