use vstd::prelude::*;

verus! {

/// Why the broker stopped serving or refused a client.
#[derive(Debug, PartialEq, Eq, Clone, Copy, Structural)]
pub enum BrokerErrors {
    IncommingConnectionError,
    OutgoingConnectionError,
    ConnectIsNotFirstMessageError,
    JoinIncommingThreadError,
    JoinOutgoingThreadError,
    AuthenticateError,
    SendMessageToThreadError,
    DisconnectError,
    ArgsLengthError,
    InvalidPortError,
    LinkIPAndPortError,
}

/// The text that describes each error.
pub open spec fn broker_error_text(e: BrokerErrors) -> Seq<char> {
    match e {
        BrokerErrors::IncommingConnectionError => "Error al manejar las conexiones entrantes"@,
        BrokerErrors::OutgoingConnectionError => "Error al manejar las conexiones salientes"@,
        BrokerErrors::ConnectIsNotFirstMessageError => "Error : el mensaje CONNECT no es el primero en la conexión"@,
        BrokerErrors::JoinIncommingThreadError => "Error al esperar a que termine el hilo de conexiones entrantes"@,
        BrokerErrors::JoinOutgoingThreadError => "Error al esperar a que termine el hilo de conexiones salientes"@,
        BrokerErrors::AuthenticateError => "No se pudo autenticar al cliente"@,
        BrokerErrors::SendMessageToThreadError => "Error al enviar mensaje al hilo que los procesa"@,
        BrokerErrors::DisconnectError => "Error al terminar la conexion"@,
        BrokerErrors::ArgsLengthError => "Cantidad de argumentos inválida. Debe ingresar el puerto en el que desea correr el servidor."@,
        BrokerErrors::InvalidPortError => "El puerto ingresado no es válido"@,
        BrokerErrors::LinkIPAndPortError => "Error al enlazar el IP con el puerto ingresado"@,
    }
}

impl BrokerErrors {
    /// The text that describes this error.
    pub fn message(&self) -> (r: String)
        ensures
            r@ == broker_error_text(*self),
    {
        match self {
            BrokerErrors::IncommingConnectionError => String::from_str("Error al manejar las conexiones entrantes"),
            BrokerErrors::OutgoingConnectionError => String::from_str("Error al manejar las conexiones salientes"),
            BrokerErrors::ConnectIsNotFirstMessageError => String::from_str("Error : el mensaje CONNECT no es el primero en la conexión"),
            BrokerErrors::JoinIncommingThreadError => String::from_str("Error al esperar a que termine el hilo de conexiones entrantes"),
            BrokerErrors::JoinOutgoingThreadError => String::from_str("Error al esperar a que termine el hilo de conexiones salientes"),
            BrokerErrors::AuthenticateError => String::from_str("No se pudo autenticar al cliente"),
            BrokerErrors::SendMessageToThreadError => String::from_str("Error al enviar mensaje al hilo que los procesa"),
            BrokerErrors::DisconnectError => String::from_str("Error al terminar la conexion"),
            BrokerErrors::ArgsLengthError => String::from_str("Cantidad de argumentos inválida. Debe ingresar el puerto en el que desea correr el servidor."),
            BrokerErrors::InvalidPortError => String::from_str("El puerto ingresado no es válido"),
            BrokerErrors::LinkIPAndPortError => String::from_str("Error al enlazar el IP con el puerto ingresado"),
        }
    }
}

} // verus!
