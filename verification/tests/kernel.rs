use ffsvm::errors::Error;
use ffsvm::svm::kernel::{Hyperparameters, KernelKind, KernelParameters};

#[test]
fn rbf_without_gamma_is_refused() {
    let model = Hyperparameters::<f32> { gamma: None, coef0: Some(1.0), degree: Some(3) };
    assert_eq!(KernelParameters::rbf(&model), Err(Error::NoGamma));
    assert_eq!(KernelParameters::select(KernelKind::Rbf, &model), Err(Error::NoGamma));
}

#[test]
fn rbf_takes_gamma() {
    let model = Hyperparameters::<f32> { gamma: Some(0.25), coef0: None, degree: None };
    assert_eq!(KernelParameters::rbf(&model), Ok(KernelParameters::Rbf { gamma: 0.25 }));
    assert_eq!(
        KernelParameters::select(KernelKind::Rbf, &model),
        Ok(KernelParameters::Rbf { gamma: 0.25 })
    );
}

#[test]
fn linear_needs_nothing() {
    let model = Hyperparameters::<f32> { gamma: None, coef0: None, degree: None };
    assert_eq!(KernelParameters::select(KernelKind::Linear, &model), Ok(KernelParameters::Linear));
    let full = Hyperparameters::<f32> { gamma: Some(1.0), coef0: Some(2.0), degree: Some(3) };
    assert_eq!(KernelParameters::select(KernelKind::Linear, &full), Ok(KernelParameters::Linear));
}

#[test]
fn polynomial_reports_the_first_missing_parameter() {
    let none = Hyperparameters::<f32> { gamma: None, coef0: None, degree: None };
    assert_eq!(KernelParameters::polynomial(&none), Err(Error::NoGamma));

    let no_gamma = Hyperparameters::<f32> { gamma: None, coef0: Some(0.0), degree: Some(2) };
    assert_eq!(KernelParameters::polynomial(&no_gamma), Err(Error::NoGamma));

    let no_coef0 = Hyperparameters::<f32> { gamma: Some(1.0), coef0: None, degree: None };
    assert_eq!(KernelParameters::polynomial(&no_coef0), Err(Error::NoCoef0));

    let no_degree = Hyperparameters::<f32> { gamma: Some(1.0), coef0: Some(0.0), degree: None };
    assert_eq!(KernelParameters::polynomial(&no_degree), Err(Error::NoDegree));
    assert_eq!(
        KernelParameters::select(KernelKind::Polynomial, &no_degree),
        Err(Error::NoDegree)
    );
}

#[test]
fn polynomial_takes_all_three() {
    let model = Hyperparameters::<f32> { gamma: Some(1.0), coef0: Some(0.0), degree: Some(1) };
    let expected = KernelParameters::Polynomial { degree: 1, gamma: 1.0f32, coef0: 0.0f32 };
    assert_eq!(KernelParameters::polynomial(&model), Ok(expected));
    let again = KernelParameters::Polynomial { degree: 1, gamma: 1.0f32, coef0: 0.0f32 };
    assert_eq!(KernelParameters::select(KernelKind::Polynomial, &model), Ok(again));
}
