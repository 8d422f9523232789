use vstd::prelude::*;
use crate::mqtt::mqtt_utils::mqtt_error::MqttError;
use crate::mqtt::mqtt_utils::text::str_equals;

verus! {

/// The kind of application behind a client.
#[derive(Debug, PartialEq, Eq, Clone, Copy, Structural)]
pub enum AppType {
    Cameras,
    Dron,
    Monitoreo,
}

/// The name each application kind is written as.
pub open spec fn app_type_text(t: AppType) -> Seq<char> {
    match t {
        AppType::Cameras => "camaras"@,
        AppType::Dron => "dron"@,
        AppType::Monitoreo => "monitoreo"@,
    }
}

/// The application kind that the name `s` denotes, if any.
pub open spec fn app_type_of_text(s: Seq<char>) -> Option<AppType> {
    if s == "camaras"@ {
        Some(AppType::Cameras)
    } else if s == "dron"@ {
        Some(AppType::Dron)
    } else if s == "monitoreo"@ {
        Some(AppType::Monitoreo)
    } else {
        None
    }
}

impl AppType {
    /// The name this application kind is written as.
    pub fn to_str(&self) -> (r: String)
        ensures
            r@ == app_type_text(*self),
    {
        match self {
            AppType::Cameras => String::from_str("camaras"),
            AppType::Dron => String::from_str("dron"),
            AppType::Monitoreo => String::from_str("monitoreo"),
        }
    }

    /// The application kind that `str` names; refuses any other text.
    pub fn app_type_from_str(str: &str) -> (r: Result<Self, MqttError>)
        ensures
            match app_type_of_text(str@) {
                Some(t) => r == Ok::<Self, MqttError>(t),
                None => r == Err::<Self, MqttError>(MqttError::InvalidAppType),
            },
    {
        if str_equals(str, "camaras") {
            Ok(AppType::Cameras)
        } else if str_equals(str, "dron") {
            Ok(AppType::Dron)
        } else if str_equals(str, "monitoreo") {
            Ok(AppType::Monitoreo)
        } else {
            Err(MqttError::InvalidAppType)
        }
    }
}

/// Every application kind is read back from its name.
pub proof fn lemma_app_type_roundtrip(t: AppType)
    ensures
        app_type_of_text(app_type_text(t)) == Some(t),
{
    reveal_strlit("camaras");
    reveal_strlit("dron");
    reveal_strlit("monitoreo");
    assert("camaras"@.len() == 7);
    assert("dron"@.len() == 4);
    assert("monitoreo"@.len() == 9);
}

} // verus!
