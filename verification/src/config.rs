//! The options of the store and the view of its configuration.

use vstd::prelude::*;
use vstd::string::*;
use crate::clock::{parse_error_message, parse_time, parsed, HourMinute};
use crate::error::TTError;
use crate::ledger::{end_of_day_name, names, Ledger};

verus! {

/// The names of the options that can be set.
#[derive(Clone, Copy, Debug, PartialEq, Eq)]
pub enum OptionName {
    /// The time of day at which open windows are closed.
    EndOfDay,
}

impl OptionName {
    /// The name under which the option is stored.
    pub fn name(&self) -> (r: &'static str)
        ensures
            r@ == end_of_day_name(),
    {
        "end-of-day"
    }
}

/// The options and categories of a store.
#[derive(Debug, PartialEq, Eq)]
pub struct Config {
    pub options: Vec<(String, String)>,
    pub categories: Vec<String>,
}

/// The names and values of a vector of options.
pub open spec fn pairs(v: Seq<(String, String)>) -> Seq<(Seq<char>, Seq<char>)> {
    Seq::new(v.len(), |i: int| (v[i].0@, v[i].1@))
}

/// The end of the working day that the stored options give: the time of day
/// that the value of the one option reads as, if it reads as one.
pub open spec fn boundary_of(options: Seq<(Seq<char>, Seq<char>)>) -> Option<HourMinute> {
    if options.len() == 1 && options[0].0 == end_of_day_name() {
        parsed(options[0].1)
    } else {
        None
    }
}

/// Sets an option. The end of the working day must read as a time of day;
/// a value that does not is refused and the store stays as it was.
pub fn set_option(ledger: &mut Ledger, option_name: &OptionName, option_value: &String) -> (res:
    Result<(), TTError>)
    ensures
        final(ledger).rows() == old(ledger).rows(),
        final(ledger).category_names() == old(ledger).category_names(),
        final(ledger).last_id() == old(ledger).last_id(),
        res is Ok == parsed(option_value@) is Some,
        res is Ok ==> final(ledger).option_pairs() == seq![(end_of_day_name(), option_value@)],
        res matches Err(e) ==> final(ledger).option_pairs() == old(ledger).option_pairs() && (
        e matches TTError::TTError { message } && message@ == parse_error_message(option_value@)),
{
    match option_name {
        OptionName::EndOfDay => {
            match parse_time(option_value) {
                Ok(_) => {
                    ledger.put_end_of_day(Some(option_value.clone()));
                    Ok(())
                },
                Err(e) => Err(e),
            }
        },
    }
}

/// Removes an option.
pub fn unset_option(ledger: &mut Ledger, option_name: &OptionName) -> (res: Result<(), TTError>)
    ensures
        res is Ok,
        final(ledger).rows() == old(ledger).rows(),
        final(ledger).category_names() == old(ledger).category_names(),
        final(ledger).last_id() == old(ledger).last_id(),
        final(ledger).option_pairs() == Seq::<(Seq<char>, Seq<char>)>::empty(),
{
    match option_name {
        OptionName::EndOfDay => {
            ledger.put_end_of_day(None);
        },
    }
    Ok(())
}

/// The stored options, each a name and a value.
pub fn get_options(ledger: &Ledger) -> (res: Result<Vec<(String, String)>, TTError>)
    ensures
        res matches Ok(options) && pairs(options@) == ledger.option_pairs(),
{
    let mut options: Vec<(String, String)> = Vec::new();
    match ledger.end_of_day() {
        Some(value) => {
            let name = String::from_str(OptionName::EndOfDay.name());
            options.push((name, value));
            assert(pairs(options@) =~= ledger.option_pairs());
        },
        None => {
            assert(pairs(options@) =~= ledger.option_pairs());
        },
    }
    Ok(options)
}

/// The names of the stored categories.
pub fn get_categories(ledger: &Ledger) -> (res: Result<Vec<String>, TTError>)
    ensures
        res matches Ok(categories) && names(categories@) == ledger.category_names(),
{
    Ok(ledger.category_list())
}

/// The options and categories of the store.
pub fn get_config(ledger: &Ledger) -> (res: Result<Config, TTError>)
    ensures
        res matches Ok(config) && pairs(config.options@) == ledger.option_pairs() && names(
            config.categories@,
        ) == ledger.category_names(),
{
    let options = match get_options(ledger) {
        Ok(o) => o,
        Err(e) => {
            return Err(e);
        },
    };
    let categories = ledger.category_list();
    Ok(Config { options, categories })
}

/// The end of the working day that the store is configured with, if it
/// holds one that reads as a time of day.
pub fn get_end_of_day(ledger: &Ledger) -> (r: Option<HourMinute>)
    ensures
        r == boundary_of(ledger.option_pairs()),
        r matches Some(hm) ==> hm.valid(),
{
    match ledger.end_of_day() {
        Some(value) => match parse_time(&value) {
            Ok(hm) => Some(hm),
            Err(_) => None,
        },
        None => None,
    }
}

} // verus!
