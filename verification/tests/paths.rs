use optics_bench::events::{first_lens, is_pinhole, last_refraction, lens_train, Event, Surf};

#[test]
fn last_refraction_skips_apertures() {
    let ev = vec![Event::Lens(0), Event::Glass(1), Event::Stop(2)];
    assert_eq!(last_refraction(&ev), Some(1));
    assert_eq!(last_refraction(&vec![Event::Stop(0)]), None);
    assert_eq!(last_refraction(&vec![]), None);
    assert_eq!(last_refraction(&vec![Event::Stop(0), Event::Lens(3)]), Some(1));
}

#[test]
fn first_lens_on_the_path() {
    assert_eq!(first_lens(&vec![Event::Stop(1), Event::Glass(0), Event::Lens(4), Event::Lens(2)]), Some(2));
    assert_eq!(first_lens(&vec![Event::Stop(1)]), None);
}

#[test]
fn lens_train_marks_lenses_and_apertures() {
    let ev = vec![Event::Lens(0), Event::Glass(5), Event::Stop(3), Event::Lens(31), Event::Lens(32)];
    assert_eq!(lens_train(&ev), 1 | (1 << 3) | (1 << 31));
    assert_eq!(lens_train(&vec![]), 0);
    assert_eq!(lens_train(&vec![Event::Lens(2), Event::Stop(2)]), 4);
}

#[test]
fn a_pinhole_is_an_aperture_without_a_lens() {
    assert!(is_pinhole(&vec![Event::Stop(0)]));
    assert!(is_pinhole(&vec![Event::Glass(0), Event::Stop(1)]));
    assert!(!is_pinhole(&vec![Event::Stop(0), Event::Lens(1)]));
    assert!(!is_pinhole(&vec![]));
    assert!(!is_pinhole(&vec![Event::Glass(0)]));
}

#[test]
fn surfaces() {
    assert_ne!(Surf::Lens(1), Surf::Rim(1));
    assert_eq!(Surf::Object(3), Surf::Object(3));
}
