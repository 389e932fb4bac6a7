//! Selection of a kernel and the guard for its hyperparameters.
//!
//! A model names one kernel and may or may not carry each hyperparameter. A
//! kernel can only be evaluated once every hyperparameter it needs is known,
//! so a missing one is reported here, before any evaluation.

use crate::errors::Error;
use vstd::prelude::*;

verus! {

/// The similarity functions a model can select.
#[derive(Debug, Clone, Copy, PartialEq, Eq)]
pub enum KernelKind {
    /// The plain dot product.
    Linear,
    /// `(gamma * dot + coef0) ^ degree`.
    Polynomial,
    /// `exp(-gamma * squared distance)`.
    Rbf,
}

/// The hyperparameters as a model carries them: each one may be absent.
#[derive(Debug, PartialEq)]
pub struct Hyperparameters<F> {
    /// Scale of the dot product, or of the squared distance.
    pub gamma: Option<F>,
    /// Constant added to the scaled dot product.
    pub coef0: Option<F>,
    /// Exponent of the polynomial kernel.
    pub degree: Option<u32>,
}

/// A kernel together with every hyperparameter it needs.
#[derive(Debug, PartialEq)]
pub enum KernelParameters<F> {
    /// The linear kernel has no hyperparameters.
    Linear,
    /// The polynomial kernel.
    Polynomial {
        /// Exponent, applied by repeated multiplication.
        degree: u32,
        /// Scale of the dot product.
        gamma: F,
        /// Constant added to the scaled dot product.
        coef0: F,
    },
    /// The radial basis function kernel.
    Rbf {
        /// Scale of the squared distance.
        gamma: F,
    },
}

impl<F: Copy> KernelParameters<F> {
    /// What [`KernelParameters::select`] answers: the kernel with its
    /// hyperparameters, or the first one found missing, looked for in the
    /// order `gamma`, `coef0`, `degree`.
    pub open spec fn spec_select(kind: KernelKind, model: Hyperparameters<F>) -> Result<
        Self,
        Error<F>,
    > {
        match kind {
            KernelKind::Linear => Ok(KernelParameters::Linear),
            KernelKind::Polynomial => match (model.gamma, model.coef0, model.degree) {
                (None, _, _) => Err(Error::NoGamma),
                (Some(_), None, _) => Err(Error::NoCoef0),
                (Some(_), Some(_), None) => Err(Error::NoDegree),
                (Some(gamma), Some(coef0), Some(degree)) => Ok(
                    KernelParameters::Polynomial { degree, gamma, coef0 },
                ),
            },
            KernelKind::Rbf => match model.gamma {
                None => Err(Error::NoGamma),
                Some(gamma) => Ok(KernelParameters::Rbf { gamma }),
            },
        }
    }

    /// The polynomial kernel with the hyperparameters of `model`.
    pub fn polynomial(model: &Hyperparameters<F>) -> (result: Result<Self, Error<F>>)
        ensures
            result == Self::spec_select(KernelKind::Polynomial, *model),
            result is Ok <==> model.gamma is Some && model.coef0 is Some && model.degree is Some,
            model.gamma is None ==> result == Err::<Self, Error<F>>(Error::NoGamma),
            model.gamma is Some && model.coef0 is None ==> result == Err::<Self, Error<F>>(
                Error::NoCoef0,
            ),
            model.gamma is Some && model.coef0 is Some && model.degree is None ==> result == Err::<
                Self,
                Error<F>,
            >(Error::NoDegree),
    {
        let gamma = match model.gamma {
            Some(gamma) => gamma,
            None => return Err(Error::NoGamma),
        };
        let coef0 = match model.coef0 {
            Some(coef0) => coef0,
            None => return Err(Error::NoCoef0),
        };
        let degree = match model.degree {
            Some(degree) => degree,
            None => return Err(Error::NoDegree),
        };
        Ok(KernelParameters::Polynomial { degree, gamma, coef0 })
    }

    /// The radial basis function kernel with the `gamma` of `model`.
    pub fn rbf(model: &Hyperparameters<F>) -> (result: Result<Self, Error<F>>)
        ensures
            result == Self::spec_select(KernelKind::Rbf, *model),
            result is Ok <==> model.gamma is Some,
            model.gamma is None ==> result == Err::<Self, Error<F>>(Error::NoGamma),
    {
        match model.gamma {
            Some(gamma) => Ok(KernelParameters::Rbf { gamma }),
            None => Err(Error::NoGamma),
        }
    }

    /// The kernel `kind` with the hyperparameters it needs, taken from
    /// `model`; fails if one of them is absent. The linear kernel needs none
    /// and never fails.
    pub fn select(kind: KernelKind, model: &Hyperparameters<F>) -> (result: Result<Self, Error<F>>)
        ensures
            result == Self::spec_select(kind, *model),
            kind == KernelKind::Linear ==> result == Ok::<Self, Error<F>>(KernelParameters::Linear),
    {
        match kind {
            KernelKind::Linear => Ok(KernelParameters::Linear),
            KernelKind::Polynomial => Self::polynomial(model),
            KernelKind::Rbf => Self::rbf(model),
        }
    }
}

} // verus!
