//! The closed catalog of group activities.
//!
//! Every event is for one [`Activity`]; each activity belongs to exactly one
//! [`ActivityType`] grouping and has a default group (party) size. Activities
//! also carry a short alphabetic prefix used to render event identifiers.

use vstd::prelude::*;

verus! {

/// Broad grouping of activities, used to filter events into view channels.
#[derive(Clone, Copy, Debug, Hash, PartialEq, Eq, Structural)]
pub enum ActivityType {
    Raid,
    Dungeon,
    Crucible,
    Gambit,
    PvE,
    Seasonal,
    Custom,
}

impl ActivityType {
    /// Display name of this activity type.
    pub fn name(&self) -> (r: &'static str)
        ensures
            r@ == self.name_spec(),
    {
        match self {
            ActivityType::Raid => "Raid",
            ActivityType::Dungeon => "Dungeon",
            ActivityType::Crucible => "Crucible",
            ActivityType::Gambit => "Gambit",
            ActivityType::PvE => "PvE",
            ActivityType::Seasonal => "Seasonal",
            ActivityType::Custom => "Custom",
        }
    }

    pub open spec fn name_spec(self) -> Seq<char> {
        match self {
            ActivityType::Raid => "Raid"@,
            ActivityType::Dungeon => "Dungeon"@,
            ActivityType::Crucible => "Crucible"@,
            ActivityType::Gambit => "Gambit"@,
            ActivityType::PvE => "PvE"@,
            ActivityType::Seasonal => "Seasonal"@,
            ActivityType::Custom => "Custom"@,
        }
    }

    /// Name used when registering chat commands for this activity type.
    pub fn command_name(&self) -> (r: &'static str)
        ensures
            r@ == self.command_name_spec(),
    {
        match self {
            ActivityType::Raid => "raid",
            ActivityType::Dungeon => "dungeon",
            ActivityType::Crucible => "pvp",
            ActivityType::Gambit => "gambit",
            ActivityType::PvE => "pve",
            ActivityType::Seasonal => "seasonal",
            ActivityType::Custom => "custom",
        }
    }

    pub open spec fn command_name_spec(self) -> Seq<char> {
        match self {
            ActivityType::Raid => "raid"@,
            ActivityType::Dungeon => "dungeon"@,
            ActivityType::Crucible => "pvp"@,
            ActivityType::Gambit => "gambit"@,
            ActivityType::PvE => "pve"@,
            ActivityType::Seasonal => "seasonal"@,
            ActivityType::Custom => "custom"@,
        }
    }

    /// Every activity type, in catalog order.
    pub open spec fn all_spec() -> Seq<ActivityType> {
        seq![
            ActivityType::Raid,
            ActivityType::Dungeon,
            ActivityType::Crucible,
            ActivityType::Gambit,
            ActivityType::PvE,
            ActivityType::Seasonal,
            ActivityType::Custom,
        ]
    }

    /// Every activity type, in catalog order.
    pub fn all() -> (r: Vec<ActivityType>)
        ensures
            r@ == Self::all_spec(),
    {
        let r = vec![
            ActivityType::Raid,
            ActivityType::Dungeon,
            ActivityType::Crucible,
            ActivityType::Gambit,
            ActivityType::PvE,
            ActivityType::Seasonal,
            ActivityType::Custom,
        ];
        assert(r@ =~= Self::all_spec());
        r
    }
}

/// All supported activities.
#[derive(Clone, Copy, Debug, Hash, PartialEq, Eq, Structural)]
pub enum Activity {
    KingsFall,
    VowOfTheDisciple,
    VaultOfGlass,
    DeepStoneCrypt,
    GardenOfSalvation,
    LastWish,
    Duality,
    GraspOfAvarice,
    Prophecy,
    PitOfHeresy,
    ShatteredThrone,
    IronBanner,
    TrialsOfOsiris,
    Quickplay,
    Competitive,
    PrivateMatch,
    OtherPvP,
    Gambit,
    Grandmaster,
    Nightfall,
    Wellspring,
    Harbinger,
    Presage,
    Story,
    OtherPvE,
    Override,
    Battleground,
    WrathbornHunt,
    Custom,
}

impl Activity {
    /// Display name of this activity.
    pub fn name(&self) -> (r: &'static str)
        ensures
            r@ == self.name_spec(),
    {
        match self {
            Activity::KingsFall => "King's Fall",
            Activity::VowOfTheDisciple => "Vow of the Disciple",
            Activity::VaultOfGlass => "Vault of Glass",
            Activity::DeepStoneCrypt => "Deep Stone Crypt",
            Activity::GardenOfSalvation => "Garden of Salvation",
            Activity::LastWish => "Last Wish",
            Activity::Duality => "Duality",
            Activity::GraspOfAvarice => "GraspOfAvarice",
            Activity::Prophecy => "Prophecy",
            Activity::PitOfHeresy => "Pit of Heresy",
            Activity::ShatteredThrone => "Shattered Throne",
            Activity::IronBanner => "Iron Banner",
            Activity::TrialsOfOsiris => "Trials of Osiris",
            Activity::Quickplay => "Quickplay",
            Activity::Competitive => "Competitive",
            Activity::PrivateMatch => "Private Match",
            Activity::OtherPvP => "Other PvP",
            Activity::Gambit => "Gambit",
            Activity::Grandmaster => "Grandmaster Nightfall",
            Activity::Nightfall => "Nightfall",
            Activity::Wellspring => "Wellspring",
            Activity::Harbinger => "Harbinger",
            Activity::Presage => "Presage",
            Activity::Story => "Story Missions",
            Activity::OtherPvE => "Other PvE",
            Activity::Override => "Override",
            Activity::Battleground => "Battleground",
            Activity::WrathbornHunt => "Wrathborn Hunt",
            Activity::Custom => "Custom",
        }
    }

    pub open spec fn name_spec(self) -> Seq<char> {
        match self {
            Activity::KingsFall => "King's Fall"@,
            Activity::VowOfTheDisciple => "Vow of the Disciple"@,
            Activity::VaultOfGlass => "Vault of Glass"@,
            Activity::DeepStoneCrypt => "Deep Stone Crypt"@,
            Activity::GardenOfSalvation => "Garden of Salvation"@,
            Activity::LastWish => "Last Wish"@,
            Activity::Duality => "Duality"@,
            Activity::GraspOfAvarice => "GraspOfAvarice"@,
            Activity::Prophecy => "Prophecy"@,
            Activity::PitOfHeresy => "Pit of Heresy"@,
            Activity::ShatteredThrone => "Shattered Throne"@,
            Activity::IronBanner => "Iron Banner"@,
            Activity::TrialsOfOsiris => "Trials of Osiris"@,
            Activity::Quickplay => "Quickplay"@,
            Activity::Competitive => "Competitive"@,
            Activity::PrivateMatch => "Private Match"@,
            Activity::OtherPvP => "Other PvP"@,
            Activity::Gambit => "Gambit"@,
            Activity::Grandmaster => "Grandmaster Nightfall"@,
            Activity::Nightfall => "Nightfall"@,
            Activity::Wellspring => "Wellspring"@,
            Activity::Harbinger => "Harbinger"@,
            Activity::Presage => "Presage"@,
            Activity::Story => "Story Missions"@,
            Activity::OtherPvE => "Other PvE"@,
            Activity::Override => "Override"@,
            Activity::Battleground => "Battleground"@,
            Activity::WrathbornHunt => "Wrathborn Hunt"@,
            Activity::Custom => "Custom"@,
        }
    }

    /// Short alphabetic prefix used to render event identifiers.
    pub fn id_prefix(&self) -> (r: &'static str)
        ensures
            r@ == self.id_prefix_spec(),
    {
        match self {
            Activity::KingsFall => "kf",
            Activity::VowOfTheDisciple => "votd",
            Activity::VaultOfGlass => "vog",
            Activity::DeepStoneCrypt => "dsc",
            Activity::GardenOfSalvation => "gos",
            Activity::LastWish => "lw",
            Activity::Duality => "dual",
            Activity::GraspOfAvarice => "goa",
            Activity::Prophecy => "proph",
            Activity::PitOfHeresy => "pit",
            Activity::ShatteredThrone => "throne",
            Activity::IronBanner => "ib",
            Activity::TrialsOfOsiris => "trials",
            Activity::Quickplay => "quick",
            Activity::Competitive => "comp",
            Activity::PrivateMatch => "priv",
            Activity::OtherPvP => "pvp",
            Activity::Gambit => "gambit",
            Activity::Grandmaster => "gm",
            Activity::Nightfall => "nf",
            Activity::Wellspring => "well",
            Activity::Harbinger => "harb",
            Activity::Presage => "pres",
            Activity::Story => "story",
            Activity::OtherPvE => "pve",
            Activity::Override => "override",
            Activity::Battleground => "battle",
            Activity::WrathbornHunt => "hunt",
            Activity::Custom => "cust",
        }
    }

    pub open spec fn id_prefix_spec(self) -> Seq<char> {
        match self {
            Activity::KingsFall => "kf"@,
            Activity::VowOfTheDisciple => "votd"@,
            Activity::VaultOfGlass => "vog"@,
            Activity::DeepStoneCrypt => "dsc"@,
            Activity::GardenOfSalvation => "gos"@,
            Activity::LastWish => "lw"@,
            Activity::Duality => "dual"@,
            Activity::GraspOfAvarice => "goa"@,
            Activity::Prophecy => "proph"@,
            Activity::PitOfHeresy => "pit"@,
            Activity::ShatteredThrone => "throne"@,
            Activity::IronBanner => "ib"@,
            Activity::TrialsOfOsiris => "trials"@,
            Activity::Quickplay => "quick"@,
            Activity::Competitive => "comp"@,
            Activity::PrivateMatch => "priv"@,
            Activity::OtherPvP => "pvp"@,
            Activity::Gambit => "gambit"@,
            Activity::Grandmaster => "gm"@,
            Activity::Nightfall => "nf"@,
            Activity::Wellspring => "well"@,
            Activity::Harbinger => "harb"@,
            Activity::Presage => "pres"@,
            Activity::Story => "story"@,
            Activity::OtherPvE => "pve"@,
            Activity::Override => "override"@,
            Activity::Battleground => "battle"@,
            Activity::WrathbornHunt => "hunt"@,
            Activity::Custom => "cust"@,
        }
    }

    /// The grouping this activity belongs to.
    pub fn activity_type(&self) -> (r: ActivityType)
        ensures
            r == self.activity_type_spec(),
    {
        match self {
            Activity::KingsFall => ActivityType::Raid,
            Activity::VowOfTheDisciple => ActivityType::Raid,
            Activity::VaultOfGlass => ActivityType::Raid,
            Activity::DeepStoneCrypt => ActivityType::Raid,
            Activity::GardenOfSalvation => ActivityType::Raid,
            Activity::LastWish => ActivityType::Raid,
            Activity::Duality => ActivityType::Dungeon,
            Activity::GraspOfAvarice => ActivityType::Dungeon,
            Activity::Prophecy => ActivityType::Dungeon,
            Activity::PitOfHeresy => ActivityType::Dungeon,
            Activity::ShatteredThrone => ActivityType::Dungeon,
            Activity::IronBanner => ActivityType::Crucible,
            Activity::TrialsOfOsiris => ActivityType::Crucible,
            Activity::Quickplay => ActivityType::Crucible,
            Activity::Competitive => ActivityType::Crucible,
            Activity::PrivateMatch => ActivityType::Crucible,
            Activity::OtherPvP => ActivityType::Crucible,
            Activity::Gambit => ActivityType::Gambit,
            Activity::Grandmaster => ActivityType::PvE,
            Activity::Nightfall => ActivityType::PvE,
            Activity::Wellspring => ActivityType::PvE,
            Activity::Harbinger => ActivityType::PvE,
            Activity::Presage => ActivityType::PvE,
            Activity::Story => ActivityType::PvE,
            Activity::OtherPvE => ActivityType::PvE,
            Activity::Override => ActivityType::Seasonal,
            Activity::Battleground => ActivityType::Seasonal,
            Activity::WrathbornHunt => ActivityType::Seasonal,
            Activity::Custom => ActivityType::Custom,
        }
    }

    pub open spec fn activity_type_spec(self) -> ActivityType {
        match self {
            Activity::KingsFall => ActivityType::Raid,
            Activity::VowOfTheDisciple => ActivityType::Raid,
            Activity::VaultOfGlass => ActivityType::Raid,
            Activity::DeepStoneCrypt => ActivityType::Raid,
            Activity::GardenOfSalvation => ActivityType::Raid,
            Activity::LastWish => ActivityType::Raid,
            Activity::Duality => ActivityType::Dungeon,
            Activity::GraspOfAvarice => ActivityType::Dungeon,
            Activity::Prophecy => ActivityType::Dungeon,
            Activity::PitOfHeresy => ActivityType::Dungeon,
            Activity::ShatteredThrone => ActivityType::Dungeon,
            Activity::IronBanner => ActivityType::Crucible,
            Activity::TrialsOfOsiris => ActivityType::Crucible,
            Activity::Quickplay => ActivityType::Crucible,
            Activity::Competitive => ActivityType::Crucible,
            Activity::PrivateMatch => ActivityType::Crucible,
            Activity::OtherPvP => ActivityType::Crucible,
            Activity::Gambit => ActivityType::Gambit,
            Activity::Grandmaster => ActivityType::PvE,
            Activity::Nightfall => ActivityType::PvE,
            Activity::Wellspring => ActivityType::PvE,
            Activity::Harbinger => ActivityType::PvE,
            Activity::Presage => ActivityType::PvE,
            Activity::Story => ActivityType::PvE,
            Activity::OtherPvE => ActivityType::PvE,
            Activity::Override => ActivityType::Seasonal,
            Activity::Battleground => ActivityType::Seasonal,
            Activity::WrathbornHunt => ActivityType::Seasonal,
            Activity::Custom => ActivityType::Custom,
        }
    }

    /// Default group (party) size for this activity.
    pub fn default_group_size(&self) -> (r: u8)
        ensures
            r == self.default_group_size_spec(),
            r >= 1,
    {
        match self {
            Activity::KingsFall => 6,
            Activity::VowOfTheDisciple => 6,
            Activity::VaultOfGlass => 6,
            Activity::DeepStoneCrypt => 6,
            Activity::GardenOfSalvation => 6,
            Activity::LastWish => 6,
            Activity::Duality => 3,
            Activity::GraspOfAvarice => 3,
            Activity::Prophecy => 3,
            Activity::PitOfHeresy => 3,
            Activity::ShatteredThrone => 3,
            Activity::IronBanner => 6,
            Activity::TrialsOfOsiris => 4,
            Activity::Quickplay => 4,
            Activity::Competitive => 4,
            Activity::PrivateMatch => 6,
            Activity::OtherPvP => 6,
            Activity::Gambit => 4,
            Activity::Grandmaster => 3,
            Activity::Nightfall => 3,
            Activity::Wellspring => 6,
            Activity::Harbinger => 3,
            Activity::Presage => 3,
            Activity::Story => 3,
            Activity::OtherPvE => 3,
            Activity::Override => 6,
            Activity::Battleground => 3,
            Activity::WrathbornHunt => 3,
            Activity::Custom => 6,
        }
    }

    pub open spec fn default_group_size_spec(self) -> u8 {
        match self {
            Activity::KingsFall => 6u8,
            Activity::VowOfTheDisciple => 6u8,
            Activity::VaultOfGlass => 6u8,
            Activity::DeepStoneCrypt => 6u8,
            Activity::GardenOfSalvation => 6u8,
            Activity::LastWish => 6u8,
            Activity::Duality => 3u8,
            Activity::GraspOfAvarice => 3u8,
            Activity::Prophecy => 3u8,
            Activity::PitOfHeresy => 3u8,
            Activity::ShatteredThrone => 3u8,
            Activity::IronBanner => 6u8,
            Activity::TrialsOfOsiris => 4u8,
            Activity::Quickplay => 4u8,
            Activity::Competitive => 4u8,
            Activity::PrivateMatch => 6u8,
            Activity::OtherPvP => 6u8,
            Activity::Gambit => 4u8,
            Activity::Grandmaster => 3u8,
            Activity::Nightfall => 3u8,
            Activity::Wellspring => 6u8,
            Activity::Harbinger => 3u8,
            Activity::Presage => 3u8,
            Activity::Story => 3u8,
            Activity::OtherPvE => 3u8,
            Activity::Override => 6u8,
            Activity::Battleground => 3u8,
            Activity::WrathbornHunt => 3u8,
            Activity::Custom => 6u8,
        }
    }

    /// Every activity, in catalog order.
    pub open spec fn all_spec() -> Seq<Activity> {
        seq![
            Activity::KingsFall,
            Activity::VowOfTheDisciple,
            Activity::VaultOfGlass,
            Activity::DeepStoneCrypt,
            Activity::GardenOfSalvation,
            Activity::LastWish,
            Activity::Duality,
            Activity::GraspOfAvarice,
            Activity::Prophecy,
            Activity::PitOfHeresy,
            Activity::ShatteredThrone,
            Activity::IronBanner,
            Activity::TrialsOfOsiris,
            Activity::Quickplay,
            Activity::Competitive,
            Activity::PrivateMatch,
            Activity::OtherPvP,
            Activity::Gambit,
            Activity::Grandmaster,
            Activity::Nightfall,
            Activity::Wellspring,
            Activity::Harbinger,
            Activity::Presage,
            Activity::Story,
            Activity::OtherPvE,
            Activity::Override,
            Activity::Battleground,
            Activity::WrathbornHunt,
            Activity::Custom,
        ]
    }

    /// Every activity, in catalog order.
    pub fn all() -> (r: Vec<Activity>)
        ensures
            r@ == Self::all_spec(),
    {
        let r = vec![
            Activity::KingsFall,
            Activity::VowOfTheDisciple,
            Activity::VaultOfGlass,
            Activity::DeepStoneCrypt,
            Activity::GardenOfSalvation,
            Activity::LastWish,
            Activity::Duality,
            Activity::GraspOfAvarice,
            Activity::Prophecy,
            Activity::PitOfHeresy,
            Activity::ShatteredThrone,
            Activity::IronBanner,
            Activity::TrialsOfOsiris,
            Activity::Quickplay,
            Activity::Competitive,
            Activity::PrivateMatch,
            Activity::OtherPvP,
            Activity::Gambit,
            Activity::Grandmaster,
            Activity::Nightfall,
            Activity::Wellspring,
            Activity::Harbinger,
            Activity::Presage,
            Activity::Story,
            Activity::OtherPvE,
            Activity::Override,
            Activity::Battleground,
            Activity::WrathbornHunt,
            Activity::Custom,
        ];
        assert(r@ =~= Self::all_spec());
        r
    }

    /// All activities that belong to the given type, in catalog order.
    pub fn activities_with_type(ty: ActivityType) -> (r: Vec<Activity>)
        ensures
            r@ == Self::all_spec().filter(|a: Activity| a.activity_type_spec() == ty),
    {
        let all = Self::all();
        let mut r: Vec<Activity> = Vec::new();
        let mut i: usize = 0;
        while i < all.len()
            invariant
                all@ == Self::all_spec(),
                i <= all@.len(),
                r@ == Self::all_spec().take(i as int).filter(
                    |a: Activity| a.activity_type_spec() == ty,
                ),
            decreases all@.len() - i,
        {
            let a = all[i];
            proof {
                reveal_with_fuel(Seq::filter, 31);
                assert(Self::all_spec().take(i + 1).drop_last() =~= Self::all_spec().take(
                    i as int,
                ));
            }
            if a.activity_type() == ty {
                r.push(a);
            }
            i = i + 1;
        }
        proof {
            assert(Self::all_spec().take(all@.len() as int) =~= Self::all_spec());
        }
        r
    }

    /// Looks up the activity whose identifier prefix is exactly `prefix`.
    pub fn activity_with_id_prefix(prefix: &str) -> (r: Option<Activity>)
        ensures
            r == Self::activity_of_prefix_spec(prefix@),
            match r {
                Some(a) => a.id_prefix_spec() == prefix@,
                None => forall|a: Activity| a.id_prefix_spec() != prefix@,
            },
    {
        let all = Self::all();
        let mut i: usize = 0;
        proof {
            assert(Self::all_spec().skip(0) =~= Self::all_spec());
        }
        while i < all.len()
            invariant
                all@ == Self::all_spec(),
                i <= all@.len(),
                forall|j: int| 0 <= j < i ==> Self::all_spec()[j].id_prefix_spec() != prefix@,
                Self::activity_of_prefix_spec(prefix@) == activity_of_prefix_from(
                    Self::all_spec().skip(i as int),
                    prefix@,
                ),
            decreases all@.len() - i,
        {
            let a = all[i];
            proof {
                assert(Self::all_spec().skip(i as int)[0] == Self::all_spec()[i as int]);
                assert(Self::all_spec().skip(i as int).drop_first() =~= Self::all_spec().skip(
                    i + 1,
                ));
            }
            if str_eq(a.id_prefix(), prefix) {
                proof {
                    assert(activity_of_prefix_from(Self::all_spec().skip(i as int), prefix@)
                        == Some(a));
                }
                return Some(a);
            }
            i = i + 1;
        }
        proof {
            assert(Self::all_spec().skip(Self::all_spec().len() as int)
                =~= Seq::<Activity>::empty());
            assert forall|a: Activity| a.id_prefix_spec() != prefix@ by {
                lemma_all_activities_listed(a);
                let j = choose|j: int|
                    0 <= j < Activity::all_spec().len() && Activity::all_spec()[j] == a;
                assert(Activity::all_spec()[j].id_prefix_spec() != prefix@);
            }
        }
        None
    }

    /// The first activity in the catalog whose prefix is exactly `p`.
    pub open spec fn activity_of_prefix_spec(p: Seq<char>) -> Option<Activity> {
        activity_of_prefix_from(Self::all_spec(), p)
    }
}

/// The first activity of the list whose prefix is exactly `p`.
pub open spec fn activity_of_prefix_from(s: Seq<Activity>, p: Seq<char>) -> Option<Activity>
    decreases s.len(),
{
    if s.len() == 0 {
        None
    } else if s[0].id_prefix_spec() == p {
        Some(s[0])
    } else {
        activity_of_prefix_from(s.drop_first(), p)
    }
}

/// The catalog list really does contain every activity.
proof fn lemma_all_activities_listed(a: Activity)
    ensures
        Activity::all_spec().contains(a),
{
    match a {
        Activity::KingsFall => assert(Activity::all_spec()[0] == a),
        Activity::VowOfTheDisciple => assert(Activity::all_spec()[1] == a),
        Activity::VaultOfGlass => assert(Activity::all_spec()[2] == a),
        Activity::DeepStoneCrypt => assert(Activity::all_spec()[3] == a),
        Activity::GardenOfSalvation => assert(Activity::all_spec()[4] == a),
        Activity::LastWish => assert(Activity::all_spec()[5] == a),
        Activity::Duality => assert(Activity::all_spec()[6] == a),
        Activity::GraspOfAvarice => assert(Activity::all_spec()[7] == a),
        Activity::Prophecy => assert(Activity::all_spec()[8] == a),
        Activity::PitOfHeresy => assert(Activity::all_spec()[9] == a),
        Activity::ShatteredThrone => assert(Activity::all_spec()[10] == a),
        Activity::IronBanner => assert(Activity::all_spec()[11] == a),
        Activity::TrialsOfOsiris => assert(Activity::all_spec()[12] == a),
        Activity::Quickplay => assert(Activity::all_spec()[13] == a),
        Activity::Competitive => assert(Activity::all_spec()[14] == a),
        Activity::PrivateMatch => assert(Activity::all_spec()[15] == a),
        Activity::OtherPvP => assert(Activity::all_spec()[16] == a),
        Activity::Gambit => assert(Activity::all_spec()[17] == a),
        Activity::Grandmaster => assert(Activity::all_spec()[18] == a),
        Activity::Nightfall => assert(Activity::all_spec()[19] == a),
        Activity::Wellspring => assert(Activity::all_spec()[20] == a),
        Activity::Harbinger => assert(Activity::all_spec()[21] == a),
        Activity::Presage => assert(Activity::all_spec()[22] == a),
        Activity::Story => assert(Activity::all_spec()[23] == a),
        Activity::OtherPvE => assert(Activity::all_spec()[24] == a),
        Activity::Override => assert(Activity::all_spec()[25] == a),
        Activity::Battleground => assert(Activity::all_spec()[26] == a),
        Activity::WrathbornHunt => assert(Activity::all_spec()[27] == a),
        Activity::Custom => assert(Activity::all_spec()[28] == a),
    }
}

/// Character-for-character string comparison.
pub fn str_eq(a: &str, b: &str) -> (r: bool)
    ensures
        r == (a@ == b@),
{
    let a_len = a.unicode_len();
    let b_len = b.unicode_len();
    if a_len != b_len {
        assert(a@ != b@);
        return false;
    }
    let mut i: usize = 0;
    while i < a_len
        invariant
            a_len == a@.len(),
            b_len == b@.len(),
            a_len == b_len,
            i <= a_len,
            forall|j: int| 0 <= j < i ==> a@[j] == b@[j],
        decreases a_len - i,
    {
        if a.get_char(i) != b.get_char(i) {
            assert(a@ != b@);
            return false;
        }
        i = i + 1;
    }
    proof {
        assert(a@ =~= b@);
    }
    true
}

} // verus!
