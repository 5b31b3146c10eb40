use narrative_loom::dedup::{is_combo_name, is_name_contained};

#[test]
fn test_is_combo_name() {
    assert!(is_combo_name("张三 & 李四"));
    assert!(is_combo_name("可希尔 & 法希尔"));
    assert!(is_combo_name("王五和赵六"));
    assert!(is_combo_name("甲与乙"));
    assert!(is_combo_name("A、B、C"));

    assert!(!is_combo_name("张三"));
    assert!(!is_combo_name("费舍尔·贝纳维德斯"));
    assert!(!is_combo_name("Johnson"));
}

#[test]
fn test_is_name_contained() {
    assert!(is_name_contained("费舍尔", "费舍尔·贝纳维德斯"));
    assert!(is_name_contained("费舍尔·贝纳维德斯", "费舍尔"));

    assert!(!is_name_contained("张", "张三"));
    assert!(!is_name_contained("王五", "赵六"));
}
