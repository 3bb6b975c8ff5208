//! Configuration checks made while a portfolio is wired together, before any
//! trial runs.
use vstd::prelude::*;

verus! {

/// A fatal inconsistency in the portfolio's input.
#[derive(Clone, Copy, Debug, PartialEq, Eq, Structural)]
pub enum ConfigError {
    /// A weight vector does not hold one weight per systematic risk factor.
    WeightDimension { expected: usize, found: usize },
    /// A rating index is not one of the borrower's rating classes.
    RatingOutOfRange { rating: usize, classes: usize },
    /// A valuation vector does not hold one value per rating class.
    ValuationLength { expected: usize, found: usize },
}

/// Checks that a weight vector holds one weight per systematic risk factor.
pub fn check_weights(num_factors: usize, num_weights: usize) -> (r: Result<(), ConfigError>)
    ensures
        r is Ok <==> num_weights == num_factors,
        num_weights != num_factors ==> r == Err::<(), ConfigError>(
            ConfigError::WeightDimension { expected: num_factors, found: num_weights },
        ),
{
    if num_weights != num_factors {
        Err(ConfigError::WeightDimension { expected: num_factors, found: num_weights })
    } else {
        Ok(())
    }
}

/// Checks that an exposure's valuation vector has one value per rating class.
pub fn check_valuations(num_classes: usize, num_values: usize) -> (r: Result<(), ConfigError>)
    ensures
        r is Ok <==> num_values == num_classes,
        num_values != num_classes ==> r == Err::<(), ConfigError>(
            ConfigError::ValuationLength { expected: num_classes, found: num_values },
        ),
{
    if num_values != num_classes {
        Err(ConfigError::ValuationLength { expected: num_classes, found: num_values })
    } else {
        Ok(())
    }
}

/// Checks that `index` names one of `num_classes` rating classes.
pub fn check_rating(index: usize, num_classes: usize) -> (r: Result<(), ConfigError>)
    ensures
        r is Ok <==> index < num_classes,
        index >= num_classes ==> r == Err::<(), ConfigError>(
            ConfigError::RatingOutOfRange { rating: index, classes: num_classes },
        ),
{
    if index >= num_classes {
        Err(ConfigError::RatingOutOfRange { rating: index, classes: num_classes })
    } else {
        Ok(())
    }
}

} // verus!
