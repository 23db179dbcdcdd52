use optics_bench::bench_mode::Mode;
use optics_bench::fourier_kinds::{Beam, Filter, FourierPreset, InputView, Object};
use optics_bench::scene_kinds::{ObjKind, Preset};
use optics_bench::tools::Tool;

#[test]
fn tool_labels() {
    assert_eq!(Tool::Stickman.label(), "Stickman");
    assert_eq!(Tool::Sign.label(), "F-sign");
    assert_eq!(Tool::Converging.label(), "Converging lens");
    assert_eq!(Tool::Stop.label(), "Central stop");
    assert_eq!(Tool::Eye.label(), "Eye");
}

#[test]
fn every_tool_is_offered_once() {
    assert_eq!(Tool::ALL.len(), 12);
    for (i, a) in Tool::ALL.iter().enumerate() {
        for b in &Tool::ALL[i + 1..] {
            assert_ne!(a, b);
        }
    }
    assert!(Tool::ALL.contains(&Tool::Prism));
}

#[test]
fn object_kind_labels() {
    assert_eq!(ObjKind::Stickman.label(), "Stickman");
    assert_eq!(ObjKind::Tree.label(), "Tree");
    assert_eq!(ObjKind::Sign.label(), "F-sign");
    assert_eq!(ObjKind::SlitLamp.label(), "Slit lamp");
    assert_eq!(ObjKind::Checker.label(), "Checkerboard");
}

#[test]
fn twelve_examples_each_with_a_title() {
    assert_eq!(Preset::ALL.len(), 12);
    assert_eq!(Preset::ALL[0], Preset::Projector);
    assert_eq!(Preset::Projector.label(), "Real image on a screen + eye");
    assert_eq!(Preset::Spectrometer.label(), "Prism spectrometer");
    assert_eq!(Preset::Aberrations.label(), "Spherical & chromatic aberration");
    for (i, a) in Preset::ALL.iter().enumerate() {
        for b in &Preset::ALL[i + 1..] {
            assert_ne!(a, b);
            assert_ne!(a.label(), b.label());
        }
    }
}

#[test]
fn example_positions_past_the_end_give_the_last_example() {
    assert_eq!(Preset::at(0), Preset::Projector);
    assert_eq!(Preset::at(5), Preset::Kepler);
    assert_eq!(Preset::at(11), Preset::Spectrometer);
    assert_eq!(Preset::at(12), Preset::Spectrometer);
    assert_eq!(Preset::at(usize::MAX), Preset::Spectrometer);
    assert_eq!(FourierPreset::at(0), FourierPreset::DoubleSlit);
    assert_eq!(FourierPreset::at(2), FourierPreset::Talbot);
    assert_eq!(FourierPreset::at(99), FourierPreset::Vortex);
}

#[test]
fn eleven_fourier_examples() {
    assert_eq!(FourierPreset::ALL.len(), 11);
    assert_eq!(FourierPreset::AbbePorter.label(), "Abbe–Porter: filtering a mesh");
    assert_eq!(FourierPreset::Airy.label(), "Circular hole: Airy disk");
    for (i, a) in FourierPreset::ALL.iter().enumerate() {
        for b in &FourierPreset::ALL[i + 1..] {
            assert_ne!(a, b);
        }
    }
}

#[test]
fn objects_and_what_they_use() {
    assert_eq!(Object::ALL.len(), 14);
    assert_eq!(Object::Open.label(), "nothing (open)");
    assert_eq!(Object::Vortex.label(), "spiral phase plate (vortex)");
    assert_eq!(Object::Open.uses(), (false, false, false, false, false));
    assert_eq!(Object::DoubleSlit.uses(), (true, true, false, true, false));
    assert_eq!(Object::PhaseGrating.uses(), (true, true, true, true, true));
    assert_eq!(Object::Circle.uses(), (true, false, false, false, false));
    // the checkerboard is a square pattern: its duty does not matter
    assert_eq!(Object::Checker.uses(), (true, true, false, true, false));
    assert_eq!(Object::Grating.uses(), (true, true, true, true, false));
    assert!(Object::Grating.is_binary());
    assert!(Object::LetterF.is_binary());
    assert!(!Object::SineGrating.is_binary());
    assert!(!Object::Open.is_binary());
    assert!(!Object::Vortex.is_binary());
    let binary = Object::ALL.iter().filter(|o| o.is_binary()).count();
    assert_eq!(binary, 11);
}

#[test]
fn filters() {
    assert_eq!(Filter::ALL.len(), 8);
    assert_eq!(Filter::ALL[0], Filter::Open);
    assert_eq!(Filter::Open.label(), "none");
    assert_eq!(Filter::Zernike.label(), "phase dot (Zernike phase contrast)");
    assert_eq!(Filter::KnifeEdge.label(), "knife edge (schlieren)");
}

#[test]
fn the_ray_bench_is_shown_by_default() {
    assert_eq!(Mode::default(), Mode::Ray);
    assert_ne!(Mode::default(), Mode::Fourier);
    let _ = (Beam::Gaussian, InputView::Complex);
}
