//! What clients send to the server and get back from it.

use crate::ai_interaction::endpoint_api::{EndpointRequestVariant, EndpointResponseVariant};
use crate::database::devices::{DeviceType, DeviceTypeView};
use crate::database::handler::{DatabaseReplyVariant, DatabaseRequestVariant};
use crate::text::same_text;
use vstd::prelude::*;

verus! {

/// A request to the AI endpoint, with the key of the session that makes it.
#[derive(PartialEq, Eq, Debug)]
pub struct AIPayload {
    pub auth_key: String,
    pub request: EndpointRequestVariant,
}

impl AIPayload {
    /// The request `request` of the session `auth_key`.
    pub fn new(auth_key: String, request: EndpointRequestVariant) -> (r: AIPayload)
        ensures
            r.auth_key == auth_key,
            r.request == request,
    {
        AIPayload { auth_key, request }
    }
}

/// An answer of the AI endpoint.
#[derive(PartialEq, Eq, Debug)]
pub struct AIResponse {
    pub reply: EndpointResponseVariant,
}

/// What a client sends to log in.
#[derive(PartialEq, Eq, Debug)]
pub struct AuthPayload {
    pub device_name: String,
    pub device_type: DeviceType,
    pub device_os: String,
    pub device_model: String,
    pub password_hash: String,
    pub username: String,
}

/// The mathematical value of an [`AuthPayload`].
pub struct AuthPayloadView {
    pub device_name: Seq<char>,
    pub device_type: DeviceTypeView,
    pub device_os: Seq<char>,
    pub device_model: Seq<char>,
    pub password_hash: Seq<char>,
    pub username: Seq<char>,
}

impl View for AuthPayload {
    type V = AuthPayloadView;

    open spec fn view(&self) -> AuthPayloadView {
        AuthPayloadView {
            device_name: self.device_name@,
            device_type: self.device_type@,
            device_os: self.device_os@,
            device_model: self.device_model@,
            password_hash: self.password_hash@,
            username: self.username@,
        }
    }
}

/// The kind of device that runs the operating system `os`: a smartphone
/// for Android and iOS, a laptop for every other.
pub open spec fn device_type_of(os: Seq<char>) -> DeviceTypeView {
    if os == "android"@ || os == "ios"@ {
        DeviceTypeView::Smartphone
    } else {
        DeviceTypeView::Laptop
    }
}

/// The name of the device that the program runs on, as `whoami::devicename`
/// gives it: the name that the device shows, else the name of the host,
/// else a stand-in. Nothing is promised of the name: it depends on the
/// machine.
#[verifier::external_body]
fn this_device_name() -> (r: String) {
    whoami::devicename()
}

impl AuthPayload {
    /// What this device, which runs `os`, sends to log `username` in. The
    /// device is called as the machine says.
    pub fn new(password: String, username: String, os: String) -> (r: AuthPayload)
        ensures
            r.device_type@ == device_type_of(os@),
            r.device_os@ == os@,
            r.device_model@ == "Generic computing device (I don't know man)"@,
            r.password_hash@ == password@,
            r.username@ == username@,
    {
        AuthPayload::with_device(password, username, this_device_name(), os)
    }

    /// What the device called `device_name`, which runs `os`, sends to log
    /// `username` in.
    pub fn with_device(password: String, username: String, device_name: String, os: String) -> (r:
        AuthPayload)
        ensures
            r.device_name@ == device_name@,
            r.device_type@ == device_type_of(os@),
            r.device_os@ == os@,
            r.device_model@ == "Generic computing device (I don't know man)"@,
            r.password_hash@ == password@,
            r.username@ == username@,
    {
        let device_type = if same_text(os.as_str(), "android") || same_text(os.as_str(), "ios") {
            DeviceType::Smartphone
        } else {
            DeviceType::Laptop
        };
        AuthPayload {
            device_name,
            device_type,
            device_os: os,
            device_model: "Generic computing device (I don't know man)".to_string(),
            password_hash: password,
            username,
        }
    }
}

/// What a client gets back when it has logged in.
#[derive(PartialEq, Eq, Debug)]
pub struct AuthResponse {
    pub session_token: String,
    pub device_id: usize,
}

/// A request to the database, with the key of the session that makes it.
#[derive(PartialEq, Eq, Debug)]
pub struct DBPayload {
    pub auth_key: String,
    pub request: DatabaseRequestVariant,
}

impl DBPayload {
    /// The request `request` of the session `auth_key`.
    pub fn new(auth_key: String, request: DatabaseRequestVariant) -> (r: DBPayload)
        ensures
            r.auth_key == auth_key,
            r.request == request,
    {
        DBPayload { auth_key, request }
    }
}

/// An answer of the database.
#[derive(PartialEq, Eq, Debug)]
pub struct DBResponse {
    pub reply: DatabaseReplyVariant,
}

} // verus!
