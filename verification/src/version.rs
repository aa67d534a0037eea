//! The Minecraft protocol versions the proxy knows, by release name and
//! protocol number, and the ones it supports.
use vstd::prelude::*;

verus! {

/// Protocol number of release 1.8.x.
pub const R1_8: i32 = 47;
/// Release name of protocol 47.
pub const R1_8_NAME: &'static str = "1.8.x";

/// Protocol number of release 1.9.
pub const R1_9: i32 = 107;
/// Release name of protocol 107.
pub const R1_9_NAME: &'static str = "1.9";

/// Protocol number of release 1.9.1.
pub const R1_9_1: i32 = 108;
/// Release name of protocol 108.
pub const R1_9_1_NAME: &'static str = "1.9.1";

/// Protocol number of release 1.9.2.
pub const R1_9_2: i32 = 109;
/// Release name of protocol 109.
pub const R1_9_2_NAME: &'static str = "1.9.2";

/// Protocol number of release 1.9.4.
pub const R1_9_4: i32 = 110;
/// Release name of protocol 110.
pub const R1_9_4_NAME: &'static str = "1.9.4";

/// Protocol number of release 1.10.
pub const R1_10: i32 = 210;
/// Release name of protocol 210.
pub const R1_10_NAME: &'static str = "1.10";

/// Protocol number of release 1.11.
pub const R1_11: i32 = 315;
/// Release name of protocol 315.
pub const R1_11_NAME: &'static str = "1.11";

/// Protocol number of release 1.11.1.
pub const R1_11_1: i32 = 316;
/// Release name of protocol 316.
pub const R1_11_1_NAME: &'static str = "1.11.1";

/// Protocol number of release 1.12.
pub const R1_12: i32 = 335;
/// Release name of protocol 335.
pub const R1_12_NAME: &'static str = "1.12";

/// Protocol number of release 1.12.1.
pub const R1_12_1: i32 = 338;
/// Release name of protocol 338.
pub const R1_12_1_NAME: &'static str = "1.12.1";

/// Protocol number of release 1.12.2.
pub const R1_12_2: i32 = 340;
/// Release name of protocol 340.
pub const R1_12_2_NAME: &'static str = "1.12.2";

/// Protocol number of release 1.13.
pub const R1_13: i32 = 393;
/// Release name of protocol 393.
pub const R1_13_NAME: &'static str = "1.13";

/// Protocol number of release 1.13.1.
pub const R1_13_1: i32 = 401;
/// Release name of protocol 401.
pub const R1_13_1_NAME: &'static str = "1.13.1";

/// Protocol number of release 1.13.2.
pub const R1_13_2: i32 = 404;
/// Release name of protocol 404.
pub const R1_13_2_NAME: &'static str = "1.13.2";

/// Protocol number of release 1.14.
pub const R1_14: i32 = 477;
/// Release name of protocol 477.
pub const R1_14_NAME: &'static str = "1.14";

/// Protocol number of release 1.14.1.
pub const R1_14_1: i32 = 480;
/// Release name of protocol 480.
pub const R1_14_1_NAME: &'static str = "1.14.1";

/// Protocol number of release 1.14.2.
pub const R1_14_2: i32 = 485;
/// Release name of protocol 485.
pub const R1_14_2_NAME: &'static str = "1.14.2";

/// Protocol number of release 1.14.3.
pub const R1_14_3: i32 = 490;
/// Release name of protocol 490.
pub const R1_14_3_NAME: &'static str = "1.14.3";

/// Protocol number of release 1.14.4.
pub const R1_14_4: i32 = 498;
/// Release name of protocol 498.
pub const R1_14_4_NAME: &'static str = "1.14.4";

/// Protocol number of release 1.15.
pub const R1_15: i32 = 573;
/// Release name of protocol 573.
pub const R1_15_NAME: &'static str = "1.15";

/// Protocol number of release 1.15.1.
pub const R1_15_1: i32 = 575;
/// Release name of protocol 575.
pub const R1_15_1_NAME: &'static str = "1.15.1";

/// Protocol number of release 1.15.2.
pub const R1_15_2: i32 = 578;
/// Release name of protocol 578.
pub const R1_15_2_NAME: &'static str = "1.15.2";

/// Protocol number of release 1.16.
pub const R1_16: i32 = 735;
/// Release name of protocol 735.
pub const R1_16_NAME: &'static str = "1.16";

/// Protocol number of release 1.16.1.
pub const R1_16_1: i32 = 736;
/// Release name of protocol 736.
pub const R1_16_1_NAME: &'static str = "1.16.1";

/// Protocol number of release 1.16.2.
pub const R1_16_2: i32 = 751;
/// Release name of protocol 751.
pub const R1_16_2_NAME: &'static str = "1.16.2";

/// Protocol number of release 1.16.3.
pub const R1_16_3: i32 = 753;
/// Release name of protocol 753.
pub const R1_16_3_NAME: &'static str = "1.16.3";

/// Protocol number of release 1.16.4.
pub const R1_16_4: i32 = 754;
/// Release name of protocol 754.
pub const R1_16_4_NAME: &'static str = "1.16.4";

/// Protocol number of release 1.17.
pub const R1_17: i32 = 755;
/// Release name of protocol 755.
pub const R1_17_NAME: &'static str = "1.17";

/// Protocol number of release 1.17.1.
pub const R1_17_1: i32 = 756;
/// Release name of protocol 756.
pub const R1_17_1_NAME: &'static str = "1.17.1";

/// Protocol number of release 1.18.
pub const R1_18: i32 = 757;
/// Release name of protocol 757.
pub const R1_18_NAME: &'static str = "1.18";

/// Protocol number of release 1.18.2.
pub const R1_18_2: i32 = 758;
/// Release name of protocol 758.
pub const R1_18_2_NAME: &'static str = "1.18.2";

/// Protocol number of release 1.19.
pub const R1_19: i32 = 759;
/// Release name of protocol 759.
pub const R1_19_NAME: &'static str = "1.19";

/// Protocol number of release 1.19.1.
pub const R1_19_1: i32 = 760;
/// Release name of protocol 760.
pub const R1_19_1_NAME: &'static str = "1.19.1";

/// Protocol number of release 1.19.3.
pub const R1_19_3: i32 = 761;
/// Release name of protocol 761.
pub const R1_19_3_NAME: &'static str = "1.19.3";

/// Protocol number of release 1.19.4.
pub const R1_19_4: i32 = 762;
/// Release name of protocol 762.
pub const R1_19_4_NAME: &'static str = "1.19.4";

/// Protocol number of release 1.20.
pub const R1_20: i32 = 763;
/// Release name of protocol 763.
pub const R1_20_NAME: &'static str = "1.20";

/// Protocol number of release 1.20.2.
pub const R1_20_2: i32 = 764;
/// Release name of protocol 764.
pub const R1_20_2_NAME: &'static str = "1.20.2";

/// Protocol number of release 1.20.3.
pub const R1_20_3: i32 = 765;
/// Release name of protocol 765.
pub const R1_20_3_NAME: &'static str = "1.20.3";

/// Protocol number of release 1.20.5.
pub const R1_20_5: i32 = 766;
/// Release name of protocol 766.
pub const R1_20_5_NAME: &'static str = "1.20.5";

/// Protocol number of release 1.21.
pub const R1_21: i32 = 767;
/// Release name of protocol 767.
pub const R1_21_NAME: &'static str = "1.21";

/// Protocol number of release 1.21.2.
pub const R1_21_2: i32 = 768;
/// Release name of protocol 768.
pub const R1_21_2_NAME: &'static str = "1.21.2";

/// Protocol number of release 1.21.4.
pub const R1_21_4: i32 = 769;
/// Release name of protocol 769.
pub const R1_21_4_NAME: &'static str = "1.21.4";


/// The range of release names the proxy supports, oldest to newest, as
/// shown to clients.
pub const SUPPORTED_VERSION_RANGE: &'static str = "1.20.2-1.21.4";

/// Every known protocol number, oldest first.
pub open spec fn all_versions() -> Seq<i32> {
    seq![R1_8, R1_9, R1_9_1, R1_9_2, R1_9_4, R1_10, R1_11, R1_11_1, R1_12, R1_12_1, R1_12_2, R1_13, R1_13_1, R1_13_2, R1_14, R1_14_1, R1_14_2, R1_14_3, R1_14_4, R1_15, R1_15_1, R1_15_2, R1_16, R1_16_1, R1_16_2, R1_16_3, R1_16_4, R1_17, R1_17_1, R1_18, R1_18_2, R1_19, R1_19_1, R1_19_3, R1_19_4, R1_20, R1_20_2, R1_20_3, R1_20_5, R1_21, R1_21_2, R1_21_4]
}

/// The protocol numbers the proxy accepts clients with.
pub open spec fn supported_versions() -> Seq<i32> {
    seq![R1_20_2, R1_20_3, R1_20_5, R1_21, R1_21_2, R1_21_4]
}

/// The release name of a supported protocol number.
pub open spec fn supported_release_name(v: i32) -> Seq<char> {
    if v == R1_20_2 {
        R1_20_2_NAME@
    } else if v == R1_20_3 {
        R1_20_3_NAME@
    } else if v == R1_20_5 {
        R1_20_5_NAME@
    } else if v == R1_21 {
        R1_21_NAME@
    } else if v == R1_21_2 {
        R1_21_2_NAME@
    } else {
        R1_21_4_NAME@
    }
}

/// The range shown to clients runs from the name of the oldest supported
/// version to the name of the newest.
pub proof fn law_supported_range()
    ensures
        SUPPORTED_VERSION_RANGE@ == supported_release_name(supported_versions()[0]) + "-"@
            + supported_release_name(supported_versions().last()),
{
    reveal_strlit("1.20.2-1.21.4");
    reveal_strlit("1.20.2");
    reveal_strlit("1.21.4");
    reveal_strlit("-");
    assert(SUPPORTED_VERSION_RANGE@ =~= supported_release_name(supported_versions()[0]) + "-"@
        + supported_release_name(supported_versions().last()));
}

/// Every known protocol number, oldest first.
pub fn all_version_numbers() -> (r: Vec<i32>)
    ensures
        r@ == all_versions(),
{
    let r = vec![R1_8, R1_9, R1_9_1, R1_9_2, R1_9_4, R1_10, R1_11, R1_11_1, R1_12, R1_12_1, R1_12_2, R1_13, R1_13_1, R1_13_2, R1_14, R1_14_1, R1_14_2, R1_14_3, R1_14_4, R1_15, R1_15_1, R1_15_2, R1_16, R1_16_1, R1_16_2, R1_16_3, R1_16_4, R1_17, R1_17_1, R1_18, R1_18_2, R1_19, R1_19_1, R1_19_3, R1_19_4, R1_20, R1_20_2, R1_20_3, R1_20_5, R1_21, R1_21_2, R1_21_4];
    proof { assert(r@ =~= all_versions()); }
    r
}

/// The protocol numbers the proxy accepts clients with.
pub fn supported_version_numbers() -> (r: Vec<i32>)
    ensures
        r@ == supported_versions(),
{
    let r = vec![R1_20_2, R1_20_3, R1_20_5, R1_21, R1_21_2, R1_21_4];
    proof { assert(r@ =~= supported_versions()); }
    r
}

/// Whether the proxy accepts clients of this protocol version.
pub fn is_supported(version: i32) -> (r: bool)
    ensures
        r == supported_versions().contains(version),
{
    let supported = supported_version_numbers();
    let mut i: usize = 0;
    while i < supported.len()
        invariant
            supported@ == supported_versions(),
            i <= supported@.len(),
            forall|j: int| 0 <= j < i ==> supported@[j] != version,
        decreases supported.len() - i,
    {
        if supported[i] == version {
            return true;
        }
        i = i + 1;
    }
    false
}

/// The position of a protocol number among all known ones, oldest first.
pub fn version_index(version: i32) -> (r: Option<usize>)
    ensures
        r matches Some(i) ==> i < all_versions().len() && all_versions()[i as int] == version,
        r is None ==> !all_versions().contains(version),
{
    let all = all_version_numbers();
    let mut i: usize = 0;
    while i < all.len()
        invariant
            all@ == all_versions(),
            i <= all@.len(),
            forall|j: int| 0 <= j < i ==> all@[j] != version,
        decreases all.len() - i,
    {
        if all[i] == version {
            return Some(i);
        }
        i = i + 1;
    }
    None
}

/// Law: the supported versions are exactly the six newest known ones, from
/// 1.20.2 on.
pub proof fn law_supported_versions_are_newest(version: i32)
    ensures
        supported_versions().contains(version) == (all_versions().contains(version) && version >= R1_20_2),
{
    if supported_versions().contains(version) {
        let j = choose|j: int| 0 <= j < 6 && supported_versions()[j] == version;
        assert(all_versions()[36 + j] == version);
    }
    if all_versions().contains(version) && version >= R1_20_2 {
        let j = choose|j: int| 0 <= j < all_versions().len() && all_versions()[j] == version;
        assert(supported_versions()[j - 36] == version);
    }
}

} // verus!
