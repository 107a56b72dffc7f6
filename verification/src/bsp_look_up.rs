//! Replacements for texture names that no archive holds.

use vstd::prelude::*;
use vstd::string::StringExecFns;

verus! {

/// The name to look for in place of a texture name: eighteen names have a
/// replacement, every other name stands for itself.
pub open spec fn replacement(name: Seq<char>) -> Seq<char> {
    if name == "textures/skies/pj_dm9sky"@ {
        "textures/skies/bluedimclouds"@
    } else if name == "textures/base_trim/border12b_pj"@ {
        "textures/base_trim/border12b"@
    } else if name == "textures/base_wall/glass01"@ {
        "textures/effects/tinfx"@
    } else if name == "textures/base_button/shootme2"@ {
        "textures/base_support/metal3_3"@
    } else if name == "textures/base_support/support2rust"@ {
        "textures/base_support/support1rust"@
    } else if name == "textures/gothic_light/gothic_light3_2K"@ {
        "textures/gothic_light/gothic_light3"@
    } else if name == "textures/gothic_light/gothic_light2_2K"@ {
        "textures/gothic_light/gothic_light2"@
    } else if name == "textures/gothic_light/gothic_light3_3k"@ {
        "textures/gothic_light/gothic_light3"@
    } else if name == "textures/gothic_light/gothic_light2_lrg_2k"@ {
        "textures/gothic_light/gothic_light2_lrg"@
    } else if name == "textures/gothic_light/goth_lt2_lrg2k"@ {
        "textures/gothic_light/gothic_light2_lrg"@
    } else if name == "textures/base_light/proto_light_2k"@ {
        "textures/base_light/proto_light"@
    } else if name == "textures/base_light/baslt4_1_2k"@ {
        "textures/base_light/baslt4_1"@
    } else if name == "textures/base_light/patch10_pj_lite2_1000"@ {
        "textures/base_light/patch10_pj_lite2"@
    } else if name == "textures/sfx/flameanim_green_pj"@ {
        "textures/sfx/g_flame1"@
    } else if name == "textures/sfx/q3dm9fog"@ {
        "textures/liquids/kc_fogcloud3"@
    } else if name == "textures/sfx/diamond2cjumppad"@ {
        "textures/sfx/bouncepad01b_layer1"@
    } else if name == "textures/sfx/teslacoil3"@ {
        "textures/sfx/cabletest2"@
    } else if name == "textures/liquids/slime1"@ {
        "textures/liquids/slime7"@
    } else {
        name
    }
}

/// Whether two strings hold the same text.
fn same_text(a: &String, b: &str) -> (r: bool)
    ensures
        r == (a@ == b@),
{
    let other: String = String::from_str(b);
    *a == other
}

/// The name to look for in place of `val`.
pub fn look_up_table(val: &str) -> (r: String)
    ensures
        r@ == replacement(val@),
{
    let name: String = String::from_str(val);
    if same_text(&name, "textures/skies/pj_dm9sky") {
        String::from_str("textures/skies/bluedimclouds")
    } else if same_text(&name, "textures/base_trim/border12b_pj") {
        String::from_str("textures/base_trim/border12b")
    } else if same_text(&name, "textures/base_wall/glass01") {
        String::from_str("textures/effects/tinfx")
    } else if same_text(&name, "textures/base_button/shootme2") {
        String::from_str("textures/base_support/metal3_3")
    } else if same_text(&name, "textures/base_support/support2rust") {
        String::from_str("textures/base_support/support1rust")
    } else if same_text(&name, "textures/gothic_light/gothic_light3_2K") {
        String::from_str("textures/gothic_light/gothic_light3")
    } else if same_text(&name, "textures/gothic_light/gothic_light2_2K") {
        String::from_str("textures/gothic_light/gothic_light2")
    } else if same_text(&name, "textures/gothic_light/gothic_light3_3k") {
        String::from_str("textures/gothic_light/gothic_light3")
    } else if same_text(&name, "textures/gothic_light/gothic_light2_lrg_2k") {
        String::from_str("textures/gothic_light/gothic_light2_lrg")
    } else if same_text(&name, "textures/gothic_light/goth_lt2_lrg2k") {
        String::from_str("textures/gothic_light/gothic_light2_lrg")
    } else if same_text(&name, "textures/base_light/proto_light_2k") {
        String::from_str("textures/base_light/proto_light")
    } else if same_text(&name, "textures/base_light/baslt4_1_2k") {
        String::from_str("textures/base_light/baslt4_1")
    } else if same_text(&name, "textures/base_light/patch10_pj_lite2_1000") {
        String::from_str("textures/base_light/patch10_pj_lite2")
    } else if same_text(&name, "textures/sfx/flameanim_green_pj") {
        String::from_str("textures/sfx/g_flame1")
    } else if same_text(&name, "textures/sfx/q3dm9fog") {
        String::from_str("textures/liquids/kc_fogcloud3")
    } else if same_text(&name, "textures/sfx/diamond2cjumppad") {
        String::from_str("textures/sfx/bouncepad01b_layer1")
    } else if same_text(&name, "textures/sfx/teslacoil3") {
        String::from_str("textures/sfx/cabletest2")
    } else if same_text(&name, "textures/liquids/slime1") {
        String::from_str("textures/liquids/slime7")
    } else {
        name
    }
}

} // verus!
