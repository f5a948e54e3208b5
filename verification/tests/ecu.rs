use fantom::ecu::{ecu_label, kernel_for_ecu, kernel_name, or_default, setdev_num, setdev_num_for_ecu};

#[test]
fn kernel_follows_the_label() {
    assert_eq!(kernel_for_ecu("7055_18"), "npk_7055_18");
    assert_eq!(kernel_for_ecu("7058"), "npk_7058");
    assert_eq!(kernel_for_ecu("SH7051"), "npk_SH7051");
    assert_eq!(kernel_for_ecu(" \tsh7055_18\n"), "npk_SH7055_18");
    assert_eq!(kernel_for_ecu(""), "npk_");
    assert_eq!(kernel_name("sh7051"), "npk_sh7051");
}

#[test]
fn kernel_label_goes_through_unicode_upper_case() {
    assert_eq!(kernel_for_ecu("stra\u{df}e"), "npk_STRASSE");
    assert_eq!(kernel_for_ecu("\u{a0}\u{e9}\u{3000}"), "npk_\u{c9}");
}

#[test]
fn device_number_of_each_family() {
    assert_eq!(setdev_num_for_ecu("SH7051"), "0");
    assert_eq!(setdev_num_for_ecu("SH7055_18"), "1");
    assert_eq!(setdev_num_for_ecu("sh7058"), "2");
    assert_eq!(setdev_num_for_ecu("7058"), "2");
}

#[test]
fn unknown_label_is_taken_for_a_7055() {
    assert_eq!(setdev_num_for_ecu(""), "1");
    assert_eq!(setdev_num_for_ecu("705"), "1");
    assert_eq!(setdev_num_for_ecu("70 58"), "1");
    assert_eq!(setdev_num("toaster"), "1");
}

#[test]
fn a_7058_goes_before_a_7051() {
    assert_eq!(setdev_num_for_ecu("7051 or 7058"), "2");
    assert_eq!(setdev_num_for_ecu("x7051y"), "0");
}

#[test]
fn letter_case_does_not_change_the_device() {
    for label in ["sh7058", "sh7051", "sh7055_35", "Sh7058n"] {
        assert_eq!(setdev_num_for_ecu(label), setdev_num_for_ecu(&label.to_uppercase()));
    }
}

#[test]
fn labels_have_a_default() {
    assert_eq!(ecu_label(None), "SH7055_18");
    assert_eq!(ecu_label(Some("SH7058".to_string())), "SH7058");
    assert_eq!(ecu_label(Some(String::new())), "");
    assert_eq!(or_default(None, "x"), "x");
}
