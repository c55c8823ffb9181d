use constellation_peer::ids::ConsensusRoundID;
use constellation_peer::ids::ProcessorIdx;

#[test]
fn processor_text_is_decimal() {
    assert_eq!(ProcessorIdx::from(0).text(), "processor #0");
    assert_eq!(ProcessorIdx::from(9).text(), "processor #9");
    assert_eq!(ProcessorIdx::from(10).text(), "processor #10");
    assert_eq!(ProcessorIdx::from(1205).text(), "processor #1205");
    assert_eq!(
        ProcessorIdx::from(usize::MAX).text(),
        format!("processor #{}", usize::MAX)
    );
}

#[test]
fn round_text_has_all_digits() {
    assert_eq!(
        ConsensusRoundID::from(0).text(),
        "consensus round #00000000000000000000000000000000"
    );
    assert_eq!(
        ConsensusRoundID::from(0xdeadbeef).text(),
        "consensus round #000000000000000000000000deadbeef"
    );
    assert_eq!(
        ConsensusRoundID::from(u128::MAX).text(),
        "consensus round #ffffffffffffffffffffffffffffffff"
    );
    assert_eq!(
        ConsensusRoundID::from(0x0123456789abcdef).text(),
        format!("consensus round #{:032x}", 0x0123456789abcdefu128)
    );
}

#[test]
fn identifiers_convert_both_ways() {
    assert_eq!(usize::from(ProcessorIdx::from(7)), 7);
    assert_eq!(u128::from(ConsensusRoundID::from(11)), 11);
}
