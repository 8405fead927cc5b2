use vstd::prelude::*;
use vstd::string::StringExecFns;

verus! {

/// Why an entered line was rejected.
pub enum InputError<E> {
    /// The line gave a value, but the value is not acceptable.
    FalsePredicate,
    /// The line could not be turned into a value; holds the conversion's error.
    Parse(E),
}

impl<E> InputError<E> {
    /// The name of the variant: `FalsePredicate` or `Parse`.
    pub fn kind_name(&self) -> (r: String)
        ensures
            r@ == match self {
                InputError::FalsePredicate => "FalsePredicate"@,
                InputError::Parse(_) => "Parse"@,
            },
    {
        match self {
            InputError::FalsePredicate => String::from_str("FalsePredicate"),
            InputError::Parse(_) => String::from_str("Parse"),
        }
    }

    /// A sentence that describes the error.
    pub fn message(&self) -> (r: String)
        ensures
            r@ == match self {
                InputError::FalsePredicate => "input predicate returned false"@,
                InputError::Parse(_) => "the input could not be parsed into the desired type"@,
            },
    {
        match self {
            InputError::FalsePredicate => String::from_str("input predicate returned false"),
            InputError::Parse(_) => String::from_str(
                "the input could not be parsed into the desired type",
            ),
        }
    }
}

/// Decides on one entered line, given what converting it gave: a value that the
/// predicate accepts is taken; a line that gave no value is rejected as `Parse`
/// with the conversion's error; a value that the predicate refuses is rejected
/// as `FalsePredicate`. The value is taken exactly when both steps succeed.
pub fn judge_input<T, E, P: Fn(&T) -> bool>(parsed: Result<T, E>, pred: P) -> (r: Result<
    T,
    InputError<E>,
>)
    requires
        forall|t: &T| pred.requires((t,)),
    ensures
        match parsed {
            Ok(v) => {
                ||| (r == Ok::<T, InputError<E>>(v) && pred.ensures((&v,), true))
                ||| (r == Err::<T, InputError<E>>(InputError::FalsePredicate) && pred.ensures(
                    (&v,),
                    false,
                ))
            },
            Err(e) => r == Err::<T, InputError<E>>(InputError::Parse(e)),
        },
{
    match parsed {
        Ok(v) => {
            if pred(&v) {
                Ok(v)
            } else {
                Err(InputError::FalsePredicate)
            }
        },
        Err(e) => Err(InputError::Parse(e)),
    }
}

/// Whether an entered age lies in the accepted range of zero to 150 years.
pub fn age_in_range(age: &i32) -> (r: bool)
    ensures
        r == (0 <= *age <= 150),
{
    0 <= *age && *age <= 150
}

/// Whether `index` picks one of `count` listed entries, numbered from 1.
pub open spec fn valid_selection(index: int, count: int) -> bool {
    1 <= index <= count
}

/// Whether `index` picks one of `count` listed entries, numbered from 1.
pub fn index_in_range(index: &usize, count: usize) -> (r: bool)
    ensures
        r == valid_selection(*index as int, count as int),
{
    0 < *index && *index <= count
}

} // verus!
