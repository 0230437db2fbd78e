use tera_statistics_analyser::time_slice::TimeSlice;
use tera_statistics_analyser::window::get_key;
use tera_statistics_analyser::window::get_patch_name;
use tera_statistics_analyser::window::Patch;
use tera_statistics_analyser::window::RegionMap;
use tera_statistics_analyser::window::RegionPatches;
use tera_statistics_analyser::window::WindowLabel;
use tera_statistics_analyser::window::WindowResolver;

fn patch(name: &str, start: u64, end: u64) -> Patch {
    Patch { name: name.to_string(), start, end }
}

fn two_regions() -> RegionMap {
    RegionMap {
        regions: vec![
            RegionPatches {
                region: "EU".to_string(),
                patches: vec![patch("old", 0, 1542104390), patch("76", 1542104390, u64::MAX)],
            },
            RegionPatches {
                region: "KR".to_string(),
                patches: vec![patch("old", 0, 1541075667), patch("79", 1541075667, u64::MAX)],
            },
        ],
    }
}

fn text(label: Option<WindowLabel>) -> Option<String> {
    label.map(|l| l.to_str())
}

#[test]
fn patch_is_found_strictly_inside_its_bounds() {
    let map = two_regions();
    assert_eq!(get_patch_name(&map, "EU", 1), Some("old".to_string()));
    assert_eq!(get_patch_name(&map, "EU", 1542104389), Some("old".to_string()));
    assert_eq!(get_patch_name(&map, "EU", 1542104391), Some("76".to_string()));
    assert_eq!(get_patch_name(&map, "EU", u64::MAX - 1), Some("76".to_string()));
    assert_eq!(get_patch_name(&map, "KR", 1541075668), Some("79".to_string()));
    assert_eq!(get_patch_name(&map, "KR", 1541075666), Some("old".to_string()));
}

#[test]
fn timestamp_on_a_patch_boundary_resolves_to_none() {
    let map = two_regions();
    assert_eq!(get_patch_name(&map, "EU", 1542104390), None);
    assert_eq!(get_patch_name(&map, "EU", 0), None);
    assert_eq!(get_patch_name(&map, "EU", u64::MAX), None);
    assert_eq!(get_patch_name(&map, "KR", 1541075667), None);
    let resolver = WindowResolver::Patches(two_regions());
    assert!(resolver.resolve("EU", 1542104390).is_none());
    assert!(resolver.resolve("EU", 1542104391).is_some());
}

#[test]
fn unknown_region_has_no_patch() {
    let map = two_regions();
    assert_eq!(get_patch_name(&map, "NA", 5), None);
    assert_eq!(get_patch_name(&map, "eu", 5), None);
    assert_eq!(get_patch_name(&map, "", 5), None);
    assert_eq!(get_patch_name(&RegionMap { regions: vec![] }, "EU", 5), None);
}

#[test]
fn first_matching_patch_and_first_entry_of_a_region_win() {
    let map = RegionMap {
        regions: vec![
            RegionPatches { region: "EU".to_string(), patches: vec![patch("a", 0, 100), patch("b", 50, 200)] },
            RegionPatches { region: "EU".to_string(), patches: vec![patch("c", 0, 1000)] },
        ],
    };
    assert_eq!(get_patch_name(&map, "EU", 60), Some("a".to_string()));
    assert_eq!(get_patch_name(&map, "EU", 100), Some("b".to_string()));
    assert_eq!(get_patch_name(&map, "EU", 500), None);
}

#[test]
fn time_slices_run_from_start_up_to_now() {
    let slices = TimeSlice::up_to(1000, 1000, 3500);
    assert_eq!(slices.all_time, vec![(1000, 2000), (2000, 3000), (3000, 4000)]);
    let exact = TimeSlice::up_to(1000, 1000, 3000);
    assert_eq!(exact.all_time, vec![(1000, 2000), (2000, 3000)]);
    assert_eq!(TimeSlice::up_to(1000, 1000, 1000).all_time, vec![]);
    assert_eq!(TimeSlice::up_to(1000, 1000, 999).all_time, vec![]);
    assert_eq!(TimeSlice::up_to(1000, 1000, 1001).all_time, vec![(1000, 2000)]);
    assert_eq!(TimeSlice::up_to(0, 0, 10).all_time, vec![]);
}

#[test]
fn time_slices_stop_where_an_end_would_not_fit() {
    let near = u64::MAX - 5;
    assert_eq!(TimeSlice::up_to(near, 10, u64::MAX).all_time, vec![]);
    assert_eq!(TimeSlice::up_to(near, 5, u64::MAX).all_time, vec![(near, u64::MAX)]);
    assert_eq!(TimeSlice::up_to(near - 4, 4, u64::MAX).all_time, vec![(near - 4, near), (near, near + 4)]);
}

#[test]
fn time_slice_holds_its_start_and_not_its_end() {
    let slices = TimeSlice::up_to(1000, 1000, 3500);
    assert_eq!(slices.get_time_slice(999), None);
    assert_eq!(slices.get_time_slice(1000), Some((1000, 2000)));
    assert_eq!(slices.get_time_slice(1999), Some((1000, 2000)));
    assert_eq!(slices.get_time_slice(2000), Some((2000, 3000)));
    assert_eq!(slices.get_time_slice(3999), Some((3000, 4000)));
    assert_eq!(slices.get_time_slice(4000), None);
    assert_eq!(TimeSlice { all_time: vec![] }.get_time_slice(5), None);
    let overlapping = TimeSlice { all_time: vec![(10, 20), (15, 30)] };
    assert_eq!(overlapping.get_time_slice(17), Some((10, 20)));
    assert_eq!(overlapping.get_time_slice(20), Some((15, 30)));
}

#[test]
fn time_slices_up_to_the_present_cover_the_recent_past() {
    let day = 86400;
    let slices = TimeSlice::new(1_500_000_000, day);
    assert!(slices.all_time.len() > 3000);
    assert_eq!(slices.all_time[0], (1_500_000_000, 1_500_000_000 + day as u64));
    for pair in slices.all_time.windows(2) {
        assert_eq!(pair[0].1, pair[1].0);
        assert_eq!(pair[1].1 - pair[1].0, day as u64);
    }
    assert_eq!(TimeSlice::new(u64::MAX, 5).all_time, vec![]);
    assert_eq!(TimeSlice::new(0, 0).all_time, vec![]);
}

#[test]
fn resolver_gives_the_same_answer_each_time() {
    let patches = WindowResolver::Patches(two_regions());
    let slices = WindowResolver::Slices(TimeSlice::up_to(1000, 1000, 5000));
    for (region, time) in [("EU", 5u64), ("EU", 1542104390), ("KR", 1541075668), ("NA", 5), ("EU", 1500), ("EU", 5000)] {
        assert_eq!(text(patches.resolve(region, time)), text(patches.resolve(region, time)));
        assert_eq!(text(slices.resolve(region, time)), text(slices.resolve(region, time)));
    }
    assert_eq!(text(patches.resolve("EU", 5)), Some("old".to_string()));
    assert_eq!(text(slices.resolve("EU", 1500)), Some("1000-2000".to_string()));
    assert_eq!(text(slices.resolve("anything", 1500)), Some("1000-2000".to_string()));
    assert_eq!(text(slices.resolve("EU", 5000)), None);
    assert_eq!(text(patches.resolve("NA", 5)), None);
}

#[test]
fn keys_and_labels_are_written_with_a_hyphen() {
    assert_eq!(get_key("EU", "76"), "EU-76");
    assert_eq!(get_key("THA", "old"), "THA-old");
    assert_eq!(WindowLabel::Slice(0, u64::MAX).to_str(), "0-18446744073709551615");
    assert_eq!(WindowLabel::Patch("76".to_string()).to_str(), "76");
}
