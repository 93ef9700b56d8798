use tizol::window::WindowType;

#[test]
fn values_lists_every_window_type_in_order() {
    let all = WindowType::values();
    assert_eq!(all.len(), 5);
    assert_eq!(all[0], WindowType::Hanning);
    assert_eq!(all[1], WindowType::Hamming);
    assert_eq!(all[2], WindowType::Blackman);
    assert_eq!(all[3], WindowType::Nuttall);
    assert_eq!(all[4], WindowType::Rectangular);
}

#[test]
fn from_str_accepts_the_lowercase_names() {
    assert_eq!(WindowType::from_str("hanning"), Ok(WindowType::Hanning));
    assert_eq!(WindowType::from_str("hann"), Ok(WindowType::Hanning));
    assert_eq!(WindowType::from_str("hamming"), Ok(WindowType::Hamming));
    assert_eq!(WindowType::from_str("blackman"), Ok(WindowType::Blackman));
    assert_eq!(WindowType::from_str("nuttall"), Ok(WindowType::Nuttall));
    assert_eq!(WindowType::from_str("none"), Ok(WindowType::Rectangular));
}

#[test]
fn from_str_ignores_the_case_of_letters() {
    assert_eq!(WindowType::from_str("HANN"), Ok(WindowType::Hanning));
    assert_eq!(WindowType::from_str("Hanning"), Ok(WindowType::Hanning));
    assert_eq!(WindowType::from_str("hAmMiNg"), Ok(WindowType::Hamming));
    assert_eq!(WindowType::from_str("BLACKMAN"), Ok(WindowType::Blackman));
    assert_eq!(WindowType::from_str("Nuttall"), Ok(WindowType::Nuttall));
    assert_eq!(WindowType::from_str("None"), Ok(WindowType::Rectangular));
    // The Kelvin sign is a capital letter whose lowercase form is `k`.
    assert_eq!(WindowType::from_str("blac\u{212a}man"), Ok(WindowType::Blackman));
}

#[test]
fn from_str_refuses_other_text() {
    assert_eq!(WindowType::from_str(""), Err("no match"));
    assert_eq!(WindowType::from_str("han"), Err("no match"));
    assert_eq!(WindowType::from_str("hanning "), Err("no match"));
    assert_eq!(WindowType::from_str("rectangular"), Err("no match"));
    assert_eq!(WindowType::from_str("kaiser"), Err("no match"));
}

#[test]
fn from_lowercase_does_not_fold_case() {
    assert_eq!(WindowType::from_lowercase("hann"), Ok(WindowType::Hanning));
    assert_eq!(WindowType::from_lowercase("Hann"), Err("no match"));
    assert_eq!(WindowType::from_lowercase("NONE"), Err("no match"));
}

#[test]
fn to_string_gives_the_declared_names() {
    assert_eq!(WindowType::Hanning.to_string(), "Hanning");
    assert_eq!(WindowType::Hamming.to_string(), "Hamming");
    assert_eq!(WindowType::Blackman.to_string(), "Blackman");
    assert_eq!(WindowType::Nuttall.to_string(), "Nuttall");
    assert_eq!(WindowType::Rectangular.to_string(), "None");
}

#[test]
fn every_name_parses_back_to_its_window_type() {
    for window_type in WindowType::values().iter() {
        assert_eq!(WindowType::from_str(&window_type.to_string()), Ok(*window_type));
    }
}

#[test]
fn parse_agrees_with_from_str() {
    assert_eq!("Blackman".parse::<WindowType>(), Ok(WindowType::Blackman));
    assert_eq!("hann".parse::<WindowType>(), Ok(WindowType::Hanning));
    assert_eq!("triangular".parse::<WindowType>(), Err("no match"));
}
