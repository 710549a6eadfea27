use cheek_ai::anchor::academic_anchor_strength;

#[test]
fn academic_anchor_parts() {
    assert_eq!(academic_anchor_strength("Introduction\nAs shown in [12], the method works. See Figure 2."), 10);
    assert_eq!(academic_anchor_strength("As shown in [12], the method works."), 4);
    assert_eq!(academic_anchor_strength("Smith et al. found it"), 4);
    assert_eq!(academic_anchor_strength("结论\n本文"), 3);
    assert_eq!(academic_anchor_strength("see table 3 below"), 3);
    assert_eq!(academic_anchor_strength("plain words only"), 0);
    assert_eq!(academic_anchor_strength("   "), 0);
}
