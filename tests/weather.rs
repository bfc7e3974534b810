use rwelcome::weather::{sky_of, weather_url, ConditionInfo, Sky};

fn condition(text: &str) -> ConditionInfo {
    ConditionInfo { text: text.to_string(), icon: String::new(), code: 1000 }
}

#[test]
fn condition_sky() {
    assert_eq!(condition("Cloudy").sky(), Sky::Cloudy);
    assert_eq!(condition("Partly cloudy").sky(), Sky::Overcast);
    assert_eq!(condition("Sunny").sky(), Sky::Sunny);
    assert_eq!(condition("Patchy light RAIN").sky(), Sky::Rainy);
    assert_eq!(condition("Mist").sky(), Sky::Overcast);
}

#[test]
fn condition_description_is_lowered() {
    assert_eq!(condition("Partly Cloudy").description(), "partly cloudy");
}

#[test]
fn sky_of_lowered_text() {
    assert_eq!(sky_of("cloudy"), Sky::Cloudy);
    assert_eq!(sky_of("Cloudy"), Sky::Overcast);
    assert_eq!(sky_of("mostly sunny"), Sky::Sunny);
    assert_eq!(sky_of("rain"), Sky::Rainy);
}

#[test]
fn weather_address() {
    assert_eq!(
        weather_url("KEY", "Brighton"),
        "https://api.weatherapi.com/v1/current.json?key=KEY&q=Brighton&aqi=no"
    );
}
