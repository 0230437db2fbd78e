//! Encounter records as they arrive, and the filter that rejects records
//! bearing forbidden buffs or coming from servers outside a region's list.

use crate::text::before_dot;
use crate::text::exceeds;
use crate::text::parse_u32;
use crate::text::parse_u64;
use crate::text::u32_text;
use crate::text::u64_text;
use crate::text::whole_value;
use crate::text::prefix_before_dot;
use vstd::prelude::*;

verus! {

/// One buff of a participant: its identifier and its uptime, both as text.
#[derive(Debug)]
pub struct BuffUptime {
    pub key: String,
    pub value: String,
}

/// One participant of an encounter.
#[derive(Debug)]
pub struct Members {
    pub buff_uptime: Vec<BuffUptime>,
    pub player_class: String,
    pub player_dps: String,
    pub player_server: String,
}

/// One encounter: where it took place, when, how long it lasted, and who
/// took part.
#[derive(Debug)]
pub struct Encounter {
    pub area_id: u32,
    pub boss_id: u32,
    pub fight_duration: u64,
    pub timestamp: u64,
    pub members: Vec<Members>,
}

/// One record: an encounter and the label of the directory it was filed
/// under, whose part before the first dot names the region.
#[derive(Debug)]
pub struct StatsLog {
    pub content: Encounter,
    pub directory: String,
}

/// Per-skill details of a participant. Nothing of them is read.
#[derive(Debug)]
pub struct SkillLog {
}

/// A buff, as contracts see it.
pub struct BuffModel {
    pub key: Seq<char>,
    pub value: Seq<char>,
}

/// A participant, as contracts see it.
pub struct MemberModel {
    pub buffs: Seq<BuffModel>,
    pub class_name: Seq<char>,
    pub dps: Seq<char>,
    pub server: Seq<char>,
}

/// A record, as contracts see it.
pub struct RecordModel {
    pub directory: Seq<char>,
    pub area_id: u32,
    pub boss_id: u32,
    pub fight_duration: u64,
    pub timestamp: u64,
    pub members: Seq<MemberModel>,
}

impl View for BuffUptime {
    type V = BuffModel;

    open spec fn view(&self) -> BuffModel {
        BuffModel { key: self.key@, value: self.value@ }
    }
}

impl View for Members {
    type V = MemberModel;

    open spec fn view(&self) -> MemberModel {
        MemberModel {
            buffs: Seq::new(self.buff_uptime@.len(), |i: int| self.buff_uptime@[i]@),
            class_name: self.player_class@,
            dps: self.player_dps@,
            server: self.player_server@,
        }
    }
}

impl View for StatsLog {
    type V = RecordModel;

    open spec fn view(&self) -> RecordModel {
        RecordModel {
            directory: self.directory@,
            area_id: self.content.area_id,
            boss_id: self.content.boss_id,
            fight_duration: self.content.fight_duration,
            timestamp: self.content.timestamp,
            members: Seq::new(
                self.content.members@.len(),
                |i: int| self.content.members@[i]@,
            ),
        }
    }
}

impl RecordModel {
    /// The region of a record: its directory label up to the first dot.
    pub open spec fn region(self) -> Seq<char> {
        before_dot(self.directory)
    }
}

/// The models of a batch of records, in order.
pub open spec fn batch_model(records: Seq<StatsLog>) -> Seq<RecordModel> {
    Seq::new(records.len(), |i: int| records[i]@)
}

/// Why a record could not be judged.
#[derive(Clone, Copy, Debug, PartialEq, Eq, Structural)]
pub enum FilterError {
    /// The uptime of a slaying buff is not a whole number.
    BuffValue,
}

/// Uptime above which a slaying buff marks a record as forbidden.
pub const SLAYING_LIMIT: u64 = 50;

/// Whether a buff identifier is forbidden outright.
pub open spec fn forbidden_key(key: Seq<char>) -> bool {
    key == "25"@ || key == "26"@ || key == "27"@ || key == "28"@ || key == "37"@ || key == "31"@
        || key == "36"@ || key == "33"@
}

/// Whether a buff identifier is that of the slaying buff.
pub open spec fn slaying_key(key: Seq<char>) -> bool {
    key == "8888889"@
}

/// Whether one buff is forbidden. A forbidden identifier is; a slaying buff
/// is when its uptime exceeds the limit, however large it is, and cannot be
/// judged when its uptime is no whole number.
pub open spec fn buff_verdict(buff: BuffModel) -> Result<bool, FilterError> {
    if forbidden_key(buff.key) {
        Ok(true)
    } else if slaying_key(buff.key) {
        match whole_value(buff.value) {
            Some(v) => Ok(v > SLAYING_LIMIT),
            None => Err(FilterError::BuffValue),
        }
    } else {
        Ok(false)
    }
}

/// The verdict on a list of buffs: that of the first buff that is forbidden
/// or cannot be judged.
pub open spec fn buffs_verdict(buffs: Seq<BuffModel>) -> Result<bool, FilterError>
    decreases buffs.len(),
{
    if buffs.len() == 0 {
        Ok(false)
    } else {
        match buff_verdict(buffs[0]) {
            Ok(false) => buffs_verdict(buffs.drop_first()),
            other => other,
        }
    }
}

/// The verdict on the buffs of a list of participants, taken in order.
pub open spec fn members_verdict(members: Seq<MemberModel>) -> Result<bool, FilterError>
    decreases members.len(),
{
    if members.len() == 0 {
        Ok(false)
    } else {
        match buffs_verdict(members[0].buffs) {
            Ok(false) => members_verdict(members.drop_first()),
            other => other,
        }
    }
}

/// Whether a server belongs to the region whose servers are listed.
pub open spec fn listed_server(server: Seq<char>) -> bool {
    server == "Killian"@ || server == "Seren"@ || server == "Mystel"@ || server == "Yurian"@
}

/// Whether a region restricts the servers its records may come from.
pub open spec fn restricted_region(region: Seq<char>) -> bool {
    region == "EU"@
}

/// Whether a record comes from a restricted region and names a participant
/// from a server outside that region's list.
pub open spec fn forbidden_server(record: RecordModel) -> bool {
    restricted_region(record.region()) && exists|i: int|
        0 <= i < record.members.len() && !listed_server(#[trigger] record.members[i].server)
}

/// Whether a record is kept: it bears no forbidden buff and no forbidden
/// server. A record whose buffs cannot be judged is an error.
pub open spec fn accepted(record: RecordModel) -> Result<bool, FilterError> {
    match members_verdict(record.members) {
        Ok(true) => Ok(false),
        Ok(false) => Ok(!forbidden_server(record)),
        Err(e) => Err(e),
    }
}

/// Whether a buff marks its record as forbidden: its identifier is
/// forbidden, or it is a slaying buff whose uptime is a whole number above
/// the limit.
pub open spec fn buff_decides(buff: BuffModel) -> bool {
    forbidden_key(buff.key) || (slaying_key(buff.key) && whole_value(buff.value) is Some
        && whole_value(buff.value)->0 > SLAYING_LIMIT)
}

/// Whether a buff can be judged: it is no slaying buff, or its uptime is a
/// whole number, or its identifier is forbidden anyway.
pub open spec fn buff_readable(buff: BuffModel) -> bool {
    forbidden_key(buff.key) || !slaying_key(buff.key) || whole_value(buff.value) is Some
}

/// Where every buff of a list can be judged, the list is found forbidden
/// exactly when one of its buffs marks it so.
pub proof fn lemma_buffs_judged(buffs: Seq<BuffModel>)
    requires
        forall|i: int| 0 <= i < buffs.len() ==> buff_readable(#[trigger] buffs[i]),
    ensures
        buffs_verdict(buffs) == Ok::<bool, FilterError>(
            exists|i: int| 0 <= i < buffs.len() && buff_decides(#[trigger] buffs[i]),
        ),
    decreases buffs.len(),
{
    if buffs.len() > 0 {
        let rest = buffs.drop_first();
        assert forall|i: int| 0 <= i < rest.len() implies buff_readable(#[trigger] rest[i]) by {
            assert(rest[i] == buffs[i + 1]);
        }
        lemma_buffs_judged(rest);
        assert(buff_readable(buffs[0]));
        if buff_decides(buffs[0]) {
        } else {
            if exists|i: int| 0 <= i < rest.len() && buff_decides(#[trigger] rest[i]) {
                let i = choose|i: int| 0 <= i < rest.len() && buff_decides(#[trigger] rest[i]);
                assert(buffs[i + 1] == rest[i]);
            }
            if exists|i: int| 0 <= i < buffs.len() && buff_decides(#[trigger] buffs[i]) {
                let i = choose|i: int| 0 <= i < buffs.len() && buff_decides(#[trigger] buffs[i]);
                assert(rest[i - 1] == buffs[i]);
            }
        }
    }
}

/// Where every buff of every participant can be judged, the participants
/// are found forbidden exactly when a buff of one of them marks them so:
/// whatever the size of a slaying uptime, no record is an error on its
/// account.
pub proof fn lemma_members_judged(members: Seq<MemberModel>)
    requires
        forall|m: int, i: int|
            0 <= m < members.len() && 0 <= i < members[m].buffs.len() ==> buff_readable(
                #[trigger] members[m].buffs[i],
            ),
    ensures
        members_verdict(members) == Ok::<bool, FilterError>(
            exists|m: int, i: int|
                0 <= m < members.len() && 0 <= i < members[m].buffs.len() && buff_decides(
                    #[trigger] members[m].buffs[i],
                ),
        ),
    decreases members.len(),
{
    if members.len() > 0 {
        let rest = members.drop_first();
        assert forall|m: int, i: int|
            0 <= m < rest.len() && 0 <= i < rest[m].buffs.len() implies buff_readable(
            #[trigger] rest[m].buffs[i],
        ) by {
            assert(rest[m] == members[m + 1]);
            assert(buff_readable(members[m + 1].buffs[i]));
        }
        lemma_members_judged(rest);
        assert forall|i: int| 0 <= i < members[0].buffs.len() implies buff_readable(
            #[trigger] members[0].buffs[i],
        ) by {}
        lemma_buffs_judged(members[0].buffs);
        let here = exists|i: int|
            0 <= i < members[0].buffs.len() && buff_decides(#[trigger] members[0].buffs[i]);
        let later = exists|m: int, i: int|
            0 <= m < rest.len() && 0 <= i < rest[m].buffs.len() && buff_decides(
                #[trigger] rest[m].buffs[i],
            );
        let any = exists|m: int, i: int|
            0 <= m < members.len() && 0 <= i < members[m].buffs.len() && buff_decides(
                #[trigger] members[m].buffs[i],
            );
        if here {
            let i = choose|i: int|
                0 <= i < members[0].buffs.len() && buff_decides(#[trigger] members[0].buffs[i]);
            assert(buff_decides(members[0].buffs[i]));
            assert(any);
        }
        if later {
            let (m, i) = choose|m: int, i: int|
                0 <= m < rest.len() && 0 <= i < rest[m].buffs.len() && buff_decides(
                    #[trigger] rest[m].buffs[i],
                );
            assert(rest[m] == members[m + 1]);
            assert(buff_decides(members[m + 1].buffs[i]));
            assert(any);
        }
        if any {
            let (m, i) = choose|m: int, i: int|
                0 <= m < members.len() && 0 <= i < members[m].buffs.len() && buff_decides(
                    #[trigger] members[m].buffs[i],
                );
            if m == 0 {
                assert(here);
            } else {
                assert(rest[m - 1] == members[m]);
                assert(buff_decides(rest[m - 1].buffs[i]));
                assert(later);
            }
        }
    }
}

/// A list of buffs that holds a forbidden identifier is not found clean.
pub proof fn lemma_forbidden_buff_found(buffs: Seq<BuffModel>, at: int)
    requires
        0 <= at < buffs.len(),
        forbidden_key(buffs[at].key),
    ensures
        buffs_verdict(buffs) != Ok::<bool, FilterError>(false),
    decreases buffs.len(),
{
    if at > 0 {
        assert(buffs.drop_first()[at - 1] == buffs[at]);
        lemma_forbidden_buff_found(buffs.drop_first(), at - 1);
    }
}

/// A record with a participant who bears a buff with a forbidden identifier
/// is never kept, whatever else the record holds.
pub proof fn lemma_forbidden_buff_excludes(record: RecordModel, who: int, at: int)
    requires
        0 <= who < record.members.len(),
        0 <= at < record.members[who].buffs.len(),
        forbidden_key(record.members[who].buffs[at].key),
    ensures
        accepted(record) != Ok::<bool, FilterError>(true),
{
    lemma_forbidden_member_found(record.members, who, at);
}

/// A list of participants of whom one bears a buff with a forbidden
/// identifier is not found clean.
pub proof fn lemma_forbidden_member_found(members: Seq<MemberModel>, who: int, at: int)
    requires
        0 <= who < members.len(),
        0 <= at < members[who].buffs.len(),
        forbidden_key(members[who].buffs[at].key),
    ensures
        members_verdict(members) != Ok::<bool, FilterError>(false),
    decreases members.len(),
{
    if who == 0 {
        lemma_forbidden_buff_found(members[0].buffs, at);
    } else {
        assert(members.drop_first()[who - 1] == members[who]);
        lemma_forbidden_member_found(members.drop_first(), who - 1, at);
    }
}

/// The records of a batch that the filter keeps, in order.
pub open spec fn kept(records: Seq<StatsLog>) -> Seq<StatsLog>
    decreases records.len(),
{
    if records.len() == 0 {
        records
    } else if accepted(records.last()@) == Ok::<bool, FilterError>(true) {
        kept(records.drop_last()).push(records.last())
    } else {
        kept(records.drop_last())
    }
}

/// Whether the record at a position is the first of a batch that cannot be
/// judged, and for the given reason.
pub open spec fn first_failure(records: Seq<StatsLog>, at: int, error: FilterError) -> bool {
    &&& 0 <= at < records.len()
    &&& accepted(records[at]@) == Err::<bool, FilterError>(error)
    &&& forall|j: int| 0 <= j < at ==> (#[trigger] accepted(records[j]@)) is Ok
}

/// Judges one buff.
fn check_buff(buff: &BuffUptime) -> (r: Result<bool, FilterError>)
    ensures
        r == buff_verdict(buff@),
{
    let key = buff.key.as_str();
    if key.eq("25") || key.eq("26") || key.eq("27") || key.eq("28") || key.eq("37") || key.eq("31")
        || key.eq("36") || key.eq("33") {
        Ok(true)
    } else if key.eq("8888889") {
        match exceeds(buff.value.as_str(), SLAYING_LIMIT) {
            Some(above) => Ok(above),
            None => Err(FilterError::BuffValue),
        }
    } else {
        Ok(false)
    }
}

/// Judges the buffs of one participant, in order.
fn check_buffs(member: &Members) -> (r: Result<bool, FilterError>)
    ensures
        r == buffs_verdict(member@.buffs),
{
    let ghost all = member@.buffs;
    let mut i: usize = 0;
    assert(all.skip(0) =~= all);
    while i < member.buff_uptime.len()
        invariant
            i <= member.buff_uptime.len(),
            all == member@.buffs,
            buffs_verdict(all) == buffs_verdict(all.skip(i as int)),
        decreases member.buff_uptime.len() - i,
    {
        let verdict = check_buff(&member.buff_uptime[i]);
        proof {
            assert(all.skip(i as int)[0] == member.buff_uptime@[i as int]@);
            assert(all.skip(i as int).drop_first() =~= all.skip(i as int + 1));
        }
        match verdict {
            Ok(false) => {},
            other => {
                return other;
            },
        }
        i += 1;
    }
    Ok(false)
}

/// Whether a record bears a forbidden buff: a buff with a forbidden
/// identifier, or a slaying buff whose uptime exceeds the limit. Buffs are
/// read participant by participant up to the first that decides; a slaying
/// buff met on the way whose uptime is no number is an error.
pub fn contain_forbidden_buff(stat: &StatsLog) -> (r: Result<bool, FilterError>)
    ensures
        r == members_verdict(stat@.members),
{
    let ghost all = stat@.members;
    let mut i: usize = 0;
    assert(all.skip(0) =~= all);
    while i < stat.content.members.len()
        invariant
            i <= stat.content.members.len(),
            all == stat@.members,
            members_verdict(all) == members_verdict(all.skip(i as int)),
        decreases stat.content.members.len() - i,
    {
        let verdict = check_buffs(&stat.content.members[i]);
        proof {
            assert(all.skip(i as int)[0] == stat.content.members@[i as int]@);
            assert(all.skip(i as int).drop_first() =~= all.skip(i as int + 1));
        }
        match verdict {
            Ok(false) => {},
            other => {
                return other;
            },
        }
        i += 1;
    }
    Ok(false)
}

/// Whether a record comes from the restricted region and names a
/// participant whose server is not on that region's list.
pub fn contain_forbidden_server(stat: &StatsLog) -> (r: bool)
    ensures
        r == forbidden_server(stat@),
{
    let region = prefix_before_dot(stat.directory.as_str());
    if !region.eq("EU") {
        return false;
    }
    let mut i: usize = 0;
    while i < stat.content.members.len()
        invariant
            i <= stat.content.members.len(),
            restricted_region(stat@.region()),
            forall|j: int| 0 <= j < i ==> listed_server(#[trigger] stat@.members[j].server),
        decreases stat.content.members.len() - i,
    {
        let server = stat.content.members[i].player_server.as_str();
        if !(server.eq("Killian") || server.eq("Seren") || server.eq("Mystel") || server.eq(
            "Yurian",
        )) {
            assert(!listed_server(stat@.members[i as int].server));
            return true;
        }
        i += 1;
    }
    false
}

/// Whether the filter keeps a record: it bears no forbidden buff and no
/// forbidden server.
pub fn accepts(stat: &StatsLog) -> (r: Result<bool, FilterError>)
    ensures
        r == accepted(stat@),
{
    match contain_forbidden_buff(stat) {
        Ok(true) => Ok(false),
        Ok(false) => Ok(!contain_forbidden_server(stat)),
        Err(e) => Err(e),
    }
}

/// Keeps the records of a batch that the filter accepts, in their order.
/// Fails on the first record that cannot be judged.
pub fn retain_accepted(records: Vec<StatsLog>) -> (r: Result<Vec<StatsLog>, FilterError>)
    ensures
        match r {
            Ok(v) => v@ == kept(records@) && forall|i: int|
                0 <= i < records.len() ==> (#[trigger] accepted(records[i]@)) is Ok,
            Err(e) => exists|at: int| first_failure(records@, at, e),
        },
{
    let ghost all = records@;
    let mut out: Vec<StatsLog> = Vec::new();
    for record in it: records.into_iter()
        invariant
            it.seq() == all,
            out@ == kept(all.take(it.index() as int)),
            forall|j: int| 0 <= j < it.index() ==> (#[trigger] accepted(all[j]@)) is Ok,
    {
        let ghost k = it.index() as int;
        proof {
            assert(all.take(k + 1).drop_last() =~= all.take(k));
            assert(all.take(k + 1).last() == all[k]);
        }
        match accepts(&record) {
            Ok(true) => {
                out.push(record);
            },
            Ok(false) => {},
            Err(e) => {
                assert(first_failure(all, k, e));
                return Err(e);
            },
        }
    }
    assert(all.take(all.len() as int) =~= all);
    Ok(out)
}

/// A field that records write as a text or as a number.
#[derive(Debug)]
pub enum StrOrInt {
    Str(String),
    Unsigned(u64),
    Signed(i64),
}

/// The `u32` that a field denotes: the number that a text writes, or the
/// number itself, where it lies within the range of a `u32`; nothing where
/// it does not.
pub open spec fn u32_of(value: StrOrInt) -> Option<u32> {
    match value {
        StrOrInt::Str(text) => u32_text(text@),
        StrOrInt::Unsigned(v) => if v <= u32::MAX {
            Some(v as u32)
        } else {
            None
        },
        StrOrInt::Signed(v) => if 0 <= v <= u32::MAX {
            Some(v as u32)
        } else {
            None
        },
    }
}

/// The `u64` that a field denotes: the number that a text writes, or the
/// number itself, where it lies within the range of a `u64`; nothing where
/// it does not.
pub open spec fn u64_of(value: StrOrInt) -> Option<u64> {
    match value {
        StrOrInt::Str(text) => u64_text(text@),
        StrOrInt::Unsigned(v) => Some(v),
        StrOrInt::Signed(v) => if 0 <= v {
            Some(v as u64)
        } else {
            None
        },
    }
}

/// Reads a field as a `u32`. A text must write a number within the range of
/// a `u32`, and a number must lie within it: a value outside the range is
/// never read as another value.
pub fn u32_from_str_or_int(value: &StrOrInt) -> (r: Option<u32>)
    ensures
        r == u32_of(*value),
{
    match value {
        StrOrInt::Str(text) => parse_u32(text.as_str()),
        StrOrInt::Unsigned(v) => if *v <= 0xFFFF_FFFF {
            Some(*v as u32)
        } else {
            None
        },
        StrOrInt::Signed(v) => if 0 <= *v && *v <= 0xFFFF_FFFF {
            Some(*v as u32)
        } else {
            None
        },
    }
}

/// Reads a field as a `u64`. A text must write a number within the range of
/// a `u64`, and a number must not be negative: a value outside the range is
/// never read as another value.
pub fn u64_from_str_or_int(value: &StrOrInt) -> (r: Option<u64>)
    ensures
        r == u64_of(*value),
{
    match value {
        StrOrInt::Str(text) => parse_u64(text.as_str()),
        StrOrInt::Unsigned(v) => Some(*v),
        StrOrInt::Signed(v) => if 0 <= *v {
            Some(*v as u64)
        } else {
            None
        },
    }
}

} // verus!
