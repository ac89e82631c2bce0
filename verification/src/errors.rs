use vstd::prelude::*;

verus! {

/// `prefix` followed by `detail`.
pub fn labelled(prefix: &str, detail: &String) -> (r: String)
    ensures
        r@ == prefix@ + detail@,
{
    let mut s = String::from_str(prefix);
    s.append(detail.as_str());
    s
}

/// The errors of audio capture.
#[derive(Debug)]
pub enum AudioError {
    DeviceNotFound(String),
    NoInputDevices,
    StreamError(String),
    ChannelError(String),
}

impl AudioError {
    /// The message that describes the error.
    pub fn message(&self) -> (r: String)
        ensures
            r@ == match self {
                AudioError::DeviceNotFound(d) => "Device not found: "@ + d@,
                AudioError::NoInputDevices => "No input devices available"@,
                AudioError::StreamError(d) => "Stream error: "@ + d@,
                AudioError::ChannelError(d) => "Channel error: "@ + d@,
            },
    {
        match self {
            AudioError::DeviceNotFound(d) => labelled("Device not found: ", d),
            AudioError::NoInputDevices => String::from_str("No input devices available"),
            AudioError::StreamError(d) => labelled("Stream error: ", d),
            AudioError::ChannelError(d) => labelled("Channel error: ", d),
        }
    }
}

/// The errors of verse detection.
#[derive(Debug)]
pub enum DetectionError {
    ParseError(String),
    InvalidBook(String),
    InvalidNumber(String),
    Internal(String),
}

impl DetectionError {
    /// The message that describes the error.
    pub fn message(&self) -> (r: String)
        ensures
            r@ == match self {
                DetectionError::ParseError(d) => "Failed to parse reference: "@ + d@,
                DetectionError::InvalidBook(d) => "Invalid book name: "@ + d@,
                DetectionError::InvalidNumber(d) => "Invalid chapter or verse number: "@ + d@,
                DetectionError::Internal(d) => "Internal error: "@ + d@,
            },
    {
        match self {
            DetectionError::ParseError(d) => labelled("Failed to parse reference: ", d),
            DetectionError::InvalidBook(d) => labelled("Invalid book name: ", d),
            DetectionError::InvalidNumber(d) => labelled("Invalid chapter or verse number: ", d),
            DetectionError::Internal(d) => labelled("Internal error: ", d),
        }
    }
}

/// The errors of speech-to-text streaming.
#[derive(Debug)]
pub enum SttError {
    ConnectionFailed(String),
    WebSocketError(String),
    ApiKeyMissing,
    SendError(String),
    ParseError(String),
}

impl SttError {
    /// The message that describes the error.
    pub fn message(&self) -> (r: String)
        ensures
            r@ == match self {
                SttError::ConnectionFailed(d) => "Connection failed: "@ + d@,
                SttError::WebSocketError(d) => "WebSocket error: "@ + d@,
                SttError::ApiKeyMissing => "API key is missing"@,
                SttError::SendError(d) => "Send error: "@ + d@,
                SttError::ParseError(d) => "Parse error: "@ + d@,
            },
    {
        match self {
            SttError::ConnectionFailed(d) => labelled("Connection failed: ", d),
            SttError::WebSocketError(d) => labelled("WebSocket error: ", d),
            SttError::ApiKeyMissing => String::from_str("API key is missing"),
            SttError::SendError(d) => labelled("Send error: ", d),
            SttError::ParseError(d) => labelled("Parse error: ", d),
        }
    }
}

} // verus!
