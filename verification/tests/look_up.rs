use ibsp::bsp_look_up::look_up_table;

#[test]
fn every_listed_name_has_its_replacement() {
    let table = [
        ("textures/skies/pj_dm9sky", "textures/skies/bluedimclouds"),
        ("textures/base_trim/border12b_pj", "textures/base_trim/border12b"),
        ("textures/base_wall/glass01", "textures/effects/tinfx"),
        ("textures/base_button/shootme2", "textures/base_support/metal3_3"),
        ("textures/base_support/support2rust", "textures/base_support/support1rust"),
        ("textures/gothic_light/gothic_light3_2K", "textures/gothic_light/gothic_light3"),
        ("textures/gothic_light/gothic_light2_2K", "textures/gothic_light/gothic_light2"),
        ("textures/gothic_light/gothic_light3_3k", "textures/gothic_light/gothic_light3"),
        ("textures/gothic_light/gothic_light2_lrg_2k", "textures/gothic_light/gothic_light2_lrg"),
        ("textures/gothic_light/goth_lt2_lrg2k", "textures/gothic_light/gothic_light2_lrg"),
        ("textures/base_light/proto_light_2k", "textures/base_light/proto_light"),
        ("textures/base_light/baslt4_1_2k", "textures/base_light/baslt4_1"),
        ("textures/base_light/patch10_pj_lite2_1000", "textures/base_light/patch10_pj_lite2"),
        ("textures/sfx/flameanim_green_pj", "textures/sfx/g_flame1"),
        ("textures/sfx/q3dm9fog", "textures/liquids/kc_fogcloud3"),
        ("textures/sfx/diamond2cjumppad", "textures/sfx/bouncepad01b_layer1"),
        ("textures/sfx/teslacoil3", "textures/sfx/cabletest2"),
        ("textures/liquids/slime1", "textures/liquids/slime7"),
    ];
    for (name, other) in table {
        assert_eq!(look_up_table(name), other);
    }
}

#[test]
fn every_other_name_stands_for_itself() {
    assert_eq!(look_up_table("textures/base_wall/concrete"), "textures/base_wall/concrete");
    assert_eq!(look_up_table(""), "");
    assert_eq!(look_up_table("textures/liquids/slime7"), "textures/liquids/slime7");
    assert_eq!(look_up_table("textures/liquids/slime1 "), "textures/liquids/slime1 ");
    assert_eq!(look_up_table("Textures/liquids/slime1"), "Textures/liquids/slime1");
    assert_eq!(
        look_up_table("textures/gothic_light/gothic_light3_2k"),
        "textures/gothic_light/gothic_light3_2k"
    );
}
