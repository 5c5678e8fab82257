use thorn_svg_core::Nib;

#[test]
fn the_nib_vocabulary_is_what_this_draws() {
    assert_eq!(Nib::from_value("monoline"), Some(Nib::Monoline));
    assert_eq!(Nib::Monoline.value(), "monoline");
    assert_eq!(Nib::from_value("pen"), None);
}

#[test]
fn a_nib_value_reads_back_around_whitespace() {
    assert_eq!(Nib::from_value(" monoline\n"), Some(Nib::Monoline));
}
