use rmms_engine::adsr::ADSRState;

#[test]
fn next_walks_the_stages_in_order() {
    let s = ADSRState::default();
    assert_eq!(s, ADSRState::Attack);
    assert_eq!(s.next(), ADSRState::Decay);
    assert_eq!(s.next().next(), ADSRState::Sustain);
    assert_eq!(s.next().next().next(), ADSRState::Release);
}

#[test]
fn release_is_the_last_stage() {
    assert_eq!(ADSRState::Release.next(), ADSRState::Release);
    for s in [ADSRState::Attack, ADSRState::Decay, ADSRState::Sustain, ADSRState::Release] {
        assert_eq!(s.next().next().next(), ADSRState::Release);
    }
}

#[test]
fn reset_returns_to_attack() {
    let mut s = ADSRState::Sustain;
    s.reset();
    assert_eq!(s, ADSRState::Attack);
    let mut r = ADSRState::Release;
    r.reset();
    assert_eq!(r, ADSRState::Attack);
}
