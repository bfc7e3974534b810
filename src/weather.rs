//! The weather line of the banner: the request address, and the sky that a
//! condition's text describes.

use vstd::prelude::*;

use crate::text::{contains_text, holds_text, same_text};

verus! {

/// The text that `str::to_lowercase` gives for `s`.
pub uninterp spec fn lower_of(s: Seq<char>) -> Seq<char>;

/// Relies on `str::to_lowercase`: the result depends on the characters
/// alone.
#[verifier::external_body]
fn lowercase(s: &str) -> (r: String)
    ensures
        r@ == lower_of(s@),
{
    s.to_lowercase()
}

/// The weather's condition as the weather service reports it.
#[derive(Clone, Debug, PartialEq, Eq)]
pub struct ConditionInfo {
    pub text: String,
    pub icon: String,
    pub code: u16,
}

/// The kind of sky that a condition describes, each with its own symbol.
#[derive(Clone, Copy, Debug, PartialEq, Eq, Structural)]
pub enum Sky {
    Cloudy,
    Sunny,
    Rainy,
    Overcast,
}

/// The sky that a condition's text in small letters describes: exactly
/// `cloudy`; else holding `sunny`; else holding `rain`; else overcast.
pub open spec fn sky_for(c: Seq<char>) -> Sky {
    if c == "cloudy"@ {
        Sky::Cloudy
    } else if contains_text(c, "sunny"@) {
        Sky::Sunny
    } else if contains_text(c, "rain"@) {
        Sky::Rainy
    } else {
        Sky::Overcast
    }
}

/// The sky that `lowered`, a condition's text in small letters, describes.
pub fn sky_of(lowered: &str) -> (r: Sky)
    ensures
        r == sky_for(lowered@),
{
    if same_text(lowered, "cloudy") {
        Sky::Cloudy
    } else if holds_text(lowered, "sunny") {
        Sky::Sunny
    } else if holds_text(lowered, "rain") {
        Sky::Rainy
    } else {
        Sky::Overcast
    }
}

impl ConditionInfo {
    /// The condition's text in small letters, as the banner shows it.
    pub fn description(&self) -> (r: String)
        ensures
            r@ == lower_of(self.text@),
    {
        lowercase(self.text.as_str())
    }

    /// The sky that the condition describes.
    pub fn sky(&self) -> (r: Sky)
        ensures
            r == sky_for(lower_of(self.text@)),
    {
        let lowered = lowercase(self.text.as_str());
        sky_of(lowered.as_str())
    }
}

/// The address that asks the weather service for the current weather at
/// `location`, with the key `key`.
pub open spec fn weather_address(key: Seq<char>, location: Seq<char>) -> Seq<char> {
    "https://api.weatherapi.com/v1/current.json?key="@ + key + "&q="@ + location + "&aqi=no"@
}

/// Builds the current-weather address for `key` and `location`.
pub fn weather_url(key: &str, location: &str) -> (r: String)
    ensures
        r@ == weather_address(key@, location@),
{
    let mut url = "https://api.weatherapi.com/v1/current.json?key=".to_owned();
    url.append(key);
    url.append("&q=");
    url.append(location);
    url.append("&aqi=no");
    url
}

} // verus!
