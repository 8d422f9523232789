use vstd::prelude::*;
use crate::mqtt::mqtt_utils::broker_errors::BrokerErrors;
use crate::mqtt::mqtt_utils::text::parse_u16;
use crate::mqtt::mqtt_utils::text::parse_u16_text;

verus! {

/// The address and port the broker listens on, from the program's
/// arguments: the program name and the port. Refuses any other number of
/// arguments, and a port that does not read as a `u16`.
pub fn load_port(argv: &Vec<String>) -> (r: Result<(String, u16), BrokerErrors>)
    ensures
        argv@.len() != 2 ==> r == Err::<(String, u16), BrokerErrors>(BrokerErrors::ArgsLengthError),
        argv@.len() == 2 ==> match parse_u16_text(argv@[1]@) {
            None => r == Err::<(String, u16), BrokerErrors>(BrokerErrors::InvalidPortError),
            Some(port) => r matches Ok((ip, p)) && ip@ == "127.0.0.1"@ && p == port,
        },
{
    if argv.len() != 2 {
        return Err(BrokerErrors::ArgsLengthError);
    }
    let port = match parse_u16(argv[1].as_str()) {
        Some(port) => port,
        None => {
            return Err(BrokerErrors::InvalidPortError);
        },
    };
    let localhost = String::from_str("127.0.0.1");
    Ok((localhost, port))
}

} // verus!
