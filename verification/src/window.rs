//! Time windows: named patch intervals per region, rolling time slices, and
//! the resolver that maps a record's region and timestamp to its window.

use crate::text::decimal;
use crate::text::decimal_digits;
use crate::text::hyphenated;
use crate::text::join_hyphen;
use crate::time_slice::first_holding;
use crate::time_slice::TimeSlice;
use vstd::prelude::*;

verus! {

/// A named interval of time. It holds the times strictly between its two
/// bounds.
pub struct Patch {
    pub name: String,
    pub start: u64,
    pub end: u64,
}

/// The patches of one region, in the order in which they are tried.
pub struct RegionPatches {
    pub region: String,
    pub patches: Vec<Patch>,
}

/// The patches of every region. Where a region occurs more than once, its
/// first entry counts.
pub struct RegionMap {
    pub regions: Vec<RegionPatches>,
}

/// A patch, as contracts see it.
pub struct PatchModel {
    pub name: Seq<char>,
    pub start: u64,
    pub end: u64,
}

/// The patches of one region, as contracts see them.
pub struct RegionModel {
    pub region: Seq<char>,
    pub patches: Seq<PatchModel>,
}

impl View for Patch {
    type V = PatchModel;

    open spec fn view(&self) -> PatchModel {
        PatchModel { name: self.name@, start: self.start, end: self.end }
    }
}

impl View for RegionPatches {
    type V = RegionModel;

    open spec fn view(&self) -> RegionModel {
        RegionModel {
            region: self.region@,
            patches: Seq::new(self.patches@.len(), |i: int| self.patches@[i]@),
        }
    }
}

impl View for RegionMap {
    type V = Seq<RegionModel>;

    open spec fn view(&self) -> Seq<RegionModel> {
        Seq::new(self.regions@.len(), |i: int| self.regions@[i]@)
    }
}

/// Whether a patch holds a time: strictly after its start and strictly
/// before its end.
pub open spec fn patch_holds(patch: PatchModel, time: u64) -> bool {
    patch.start < time < patch.end
}

/// The name of the first patch of a list that holds a time.
pub open spec fn first_patch(patches: Seq<PatchModel>, time: u64) -> Option<Seq<char>>
    decreases patches.len(),
{
    if patches.len() == 0 {
        None
    } else if patch_holds(patches[0], time) {
        Some(patches[0].name)
    } else {
        first_patch(patches.drop_first(), time)
    }
}

/// The patches of a region: those of its first entry.
pub open spec fn patches_of(regions: Seq<RegionModel>, region: Seq<char>) -> Option<
    Seq<PatchModel>,
>
    decreases regions.len(),
{
    if regions.len() == 0 {
        None
    } else if regions[0].region == region {
        Some(regions[0].patches)
    } else {
        patches_of(regions.drop_first(), region)
    }
}

/// The name of the patch that a timestamp falls into in a region: the first
/// patch of the region that holds it.
pub open spec fn patch_name(regions: Seq<RegionModel>, region: Seq<char>, time: u64) -> Option<
    Seq<char>,
> {
    match patches_of(regions, region) {
        Some(patches) => first_patch(patches, time),
        None => None,
    }
}

/// A time falls into a patch of a list exactly when some patch of the list
/// holds it: a time on a bound of every patch around it falls into none.
pub proof fn lemma_first_patch(patches: Seq<PatchModel>, time: u64)
    ensures
        first_patch(patches, time) is Some <==> exists|i: int|
            0 <= i < patches.len() && patch_holds(#[trigger] patches[i], time),
        first_patch(patches, time) matches Some(name) ==> exists|i: int|
            0 <= i < patches.len() && patch_holds(#[trigger] patches[i], time) && patches[i].name
                == name,
    decreases patches.len(),
{
    if patches.len() == 0 {
    } else if patch_holds(patches[0], time) {
    } else {
        let rest = patches.drop_first();
        lemma_first_patch(rest, time);
        if first_patch(rest, time) is Some {
            let i = choose|i: int|
                0 <= i < rest.len() && patch_holds(#[trigger] rest[i], time) && rest[i].name
                    == first_patch(rest, time)->0;
            assert(patches[i + 1] == rest[i]);
        }
        if exists|i: int| 0 <= i < patches.len() && patch_holds(#[trigger] patches[i], time) {
            let i = choose|i: int|
                0 <= i < patches.len() && patch_holds(#[trigger] patches[i], time);
            assert(rest[i - 1] == patches[i]);
        }
    }
}

/// The window of a record: a time slice by its bounds, or a patch by name.
#[derive(Debug)]
pub enum WindowLabel {
    Slice(u64, u64),
    Patch(String),
}

/// A window, as contracts see it.
pub enum LabelModel {
    Slice(u64, u64),
    Patch(Seq<char>),
}

impl View for WindowLabel {
    type V = LabelModel;

    open spec fn view(&self) -> LabelModel {
        match self {
            WindowLabel::Slice(a, b) => LabelModel::Slice(*a, *b),
            WindowLabel::Patch(name) => LabelModel::Patch(name@),
        }
    }
}

/// The text of a window in report paths: the name of a patch, or the two
/// bounds of a time slice joined by a hyphen.
pub open spec fn label_text(label: LabelModel) -> Seq<char> {
    match label {
        LabelModel::Slice(a, b) => hyphenated(decimal_digits(a as nat), decimal_digits(b as nat)),
        LabelModel::Patch(name) => name,
    }
}

/// How records are assigned to windows: by rolling time slices, the same in
/// every region, or by the named patches of each region.
pub enum WindowResolver {
    Slices(TimeSlice),
    Patches(RegionMap),
}

/// A resolver, as contracts see it.
pub enum ResolverModel {
    Slices(Seq<(u64, u64)>),
    Patches(Seq<RegionModel>),
}

impl View for WindowResolver {
    type V = ResolverModel;

    open spec fn view(&self) -> ResolverModel {
        match self {
            WindowResolver::Slices(slices) => ResolverModel::Slices(slices.all_time@),
            WindowResolver::Patches(map) => ResolverModel::Patches(map@),
        }
    }
}

/// The window that a resolver assigns to a region and a timestamp: the
/// first time slice that holds the timestamp, or the first patch of the
/// region that holds it strictly between its bounds.
pub open spec fn resolved(resolver: ResolverModel, region: Seq<char>, time: u64) -> Option<
    LabelModel,
> {
    match resolver {
        ResolverModel::Slices(slices) => match first_holding(slices, time) {
            Some(slice) => Some(LabelModel::Slice(slice.0, slice.1)),
            None => None,
        },
        ResolverModel::Patches(regions) => match patch_name(regions, region, time) {
            Some(name) => Some(LabelModel::Patch(name)),
            None => None,
        },
    }
}

/// The model of an optional window.
pub open spec fn label_model(label: Option<WindowLabel>) -> Option<LabelModel> {
    match label {
        Some(l) => Some(l@),
        None => None,
    }
}

/// Resolving is a function of the resolver, the region and the timestamp:
/// whatever two calls with the same three return, they return the same.
pub proof fn lemma_resolve_deterministic(
    resolver: ResolverModel,
    region: Seq<char>,
    time: u64,
    first: Option<WindowLabel>,
    second: Option<WindowLabel>,
)
    requires
        label_model(first) == resolved(resolver, region, time),
        label_model(second) == resolved(resolver, region, time),
    ensures
        label_model(first) == label_model(second),
        first is Some <==> second is Some,
{
}

/// The key of a window of a region in report paths.
pub fn get_key(region: &str, patch_name: &str) -> (r: String)
    ensures
        r@ == hyphenated(region@, patch_name@),
{
    join_hyphen(region, patch_name)
}

/// The name of the first patch of a list that holds a timestamp.
fn find_patch(patches: &Vec<Patch>, timestamp: u64) -> (r: Option<String>)
    ensures
        match r {
            Some(name) => first_patch(Seq::new(patches@.len(), |i: int| patches@[i]@), timestamp)
                == Some(name@),
            None => first_patch(Seq::new(patches@.len(), |i: int| patches@[i]@), timestamp)
                is None,
        },
{
    let ghost all = Seq::new(patches@.len(), |i: int| patches@[i]@);
    let mut i: usize = 0;
    assert(all.skip(0) =~= all);
    while i < patches.len()
        invariant
            i <= patches.len(),
            all == Seq::new(patches@.len(), |i: int| patches@[i]@),
            first_patch(all, timestamp) == first_patch(all.skip(i as int), timestamp),
        decreases patches.len() - i,
    {
        let patch = &patches[i];
        proof {
            assert(all.skip(i as int)[0] == patch@);
            assert(all.skip(i as int).drop_first() =~= all.skip(i as int + 1));
        }
        if patch.start < timestamp && patch.end > timestamp {
            return Some(patch.name.clone());
        }
        i += 1;
    }
    None
}

/// The name of the patch that a timestamp falls into in a region: the first
/// patch of the region that holds the timestamp strictly between its bounds.
/// None where the region is unknown or no patch holds the timestamp.
pub fn get_patch_name(region_map: &RegionMap, region: &str, timestamp: u64) -> (r: Option<String>)
    ensures
        match r {
            Some(name) => patch_name(region_map@, region@, timestamp) == Some(name@),
            None => patch_name(region_map@, region@, timestamp) is None,
        },
{
    let ghost all = region_map@;
    let mut i: usize = 0;
    assert(all.skip(0) =~= all);
    while i < region_map.regions.len()
        invariant
            i <= region_map.regions.len(),
            all == region_map@,
            patches_of(all, region@) == patches_of(all.skip(i as int), region@),
        decreases region_map.regions.len() - i,
    {
        let entry = &region_map.regions[i];
        proof {
            assert(all.skip(i as int)[0] == entry@);
            assert(all.skip(i as int).drop_first() =~= all.skip(i as int + 1));
        }
        if entry.region.as_str().eq(region) {
            return find_patch(&entry.patches, timestamp);
        }
        i += 1;
    }
    None
}

impl WindowLabel {
    /// Whether two windows are the same.
    pub fn same(&self, other: &WindowLabel) -> (r: bool)
        ensures
            r == (self@ == other@),
    {
        match self {
            WindowLabel::Slice(from, to) => match other {
                WindowLabel::Slice(other_from, other_to) => *from == *other_from && *to
                    == *other_to,
                WindowLabel::Patch(_) => false,
            },
            WindowLabel::Patch(name) => match other {
                WindowLabel::Slice(_, _) => false,
                WindowLabel::Patch(other_name) => name.as_str().eq(other_name.as_str()),
            },
        }
    }

    /// The text of the window in report paths.
    pub fn to_str(&self) -> (r: String)
        ensures
            r@ == label_text(self@),
    {
        match self {
            WindowLabel::Slice(a, b) => {
                let first = decimal(*a as u128);
                let second = decimal(*b as u128);
                join_hyphen(first.as_str(), second.as_str())
            },
            WindowLabel::Patch(name) => name.clone(),
        }
    }
}

impl WindowResolver {
    /// The window of a record of a region with a timestamp, if it has one.
    /// The result depends on the resolver, the region and the timestamp
    /// alone.
    pub fn resolve(&self, region: &str, timestamp: u64) -> (r: Option<WindowLabel>)
        ensures
            label_model(r) == resolved(self@, region@, timestamp),
    {
        match self {
            WindowResolver::Slices(slices) => match slices.get_time_slice(timestamp) {
                Some(slice) => Some(WindowLabel::Slice(slice.0, slice.1)),
                None => None,
            },
            WindowResolver::Patches(map) => match get_patch_name(map, region, timestamp) {
                Some(name) => Some(WindowLabel::Patch(name)),
                None => None,
            },
        }
    }
}

} // verus!
