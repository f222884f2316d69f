//! The controller's side of the protocol: one command out, one response in.

use crate::bus::{Bus, BusEvent};
use crate::cmd_return::{formats_in, names_in, CmdReturn, Response};
use crate::command::ControllerCommand;
use crate::field::DataType;
use crate::status::BusStatus;
use crate::text::{push_text, text_of};
use vstd::prelude::*;
use vstd::utf8::*;

verus! {

/// The address that the controller sends under.
pub const CONTROLLER_ID: u32 = 0;

/// The name of the one field that a status or reset response holds.
pub const STATUS_FIELD: &'static str = "Status";

/// The payload that carries a command: its opcode and, for a data request,
/// the UTF-8 bytes of the argument behind it. `BadCommand` has no payload.
pub open spec fn command_payload(cmd: ControllerCommand, dname: Seq<char>) -> Option<Seq<u8>> {
    match cmd.opcode_of() {
        None => None,
        Some(opcode) => Some(
            if cmd == ControllerCommand::DataRequest {
                seq![opcode] + encode_utf8(dname)
            } else {
                seq![opcode]
            },
        ),
    }
}

/// The response that a payload is when it answers `cmd`, or the status that
/// tells why it is none.
///
/// A name has to be valid UTF-8. A status or reset response has to hold at
/// least the status byte, which becomes the one field `Status` of type
/// `u8`. A list of type tags or of field names has to parse as such, and the
/// text stays in `raw_bytes`. The answer to a data request is kept as it is.
pub open spec fn response_to(cmd: ControllerCommand, payload: Seq<u8>) -> Result<
    Response,
    BusStatus,
> {
    match cmd {
        ControllerCommand::NameRequest => if valid_utf8(payload) {
            Ok(Response { name: decode_utf8(payload), ..Response::empty() })
        } else {
            Err(BusStatus::DataErr)
        },
        ControllerCommand::StatusRequest | ControllerCommand::ResetRequest => if payload.len()
            >= 1 {
            Ok(
                Response {
                    format: seq![DataType::U8.name()],
                    data_names: seq![STATUS_FIELD@],
                    raw_bytes: seq![payload[0]],
                    ..Response::empty()
                },
            )
        } else {
            Err(BusStatus::DataErr)
        },
        ControllerCommand::FormattingRequest => match formats_in(payload) {
            Ok(tags) => Ok(Response { format: tags, raw_bytes: payload, ..Response::empty() }),
            Err(_) => Err(BusStatus::DataErr),
        },
        ControllerCommand::DnamesRequest => match names_in(payload) {
            Ok(names) => Ok(
                Response { data_names: names, raw_bytes: payload, ..Response::empty() },
            ),
            Err(_) => Err(BusStatus::DataErr),
        },
        ControllerCommand::DataRequest => Ok(Response { raw_bytes: payload, ..Response::empty() }),
        ControllerCommand::BadCommand => Err(BusStatus::Error),
    }
}

/// What the result of an exchange holds.
pub open spec fn result_view(r: Result<CmdReturn, BusStatus>) -> Result<Response, BusStatus> {
    match r {
        Ok(ret) => Ok(ret@),
        Err(e) => Err(e),
    }
}

/// True when `after` is `before` followed by one exchange for `cmd` that
/// ended in `result`.
///
/// `BadCommand` cannot be sent: the bus is not touched and the result is
/// `Error`. Any other command is sent once, under the controller's address.
/// If the bus refuses it, the exchange ends there with `Error`. Otherwise
/// the bus is asked once for a frame: a failure gives `Error`, and a frame
/// gives what its payload is as a response to `cmd`.
pub open spec fn exchanged(
    cmd: ControllerCommand,
    dname: Seq<char>,
    before: Seq<BusEvent>,
    after: Seq<BusEvent>,
    result: Result<Response, BusStatus>,
) -> bool {
    match command_payload(cmd, dname) {
        None => after == before && result == Err::<Response, BusStatus>(BusStatus::Error),
        Some(payload) => {
            let n = before.len() as int;
            &&& after.len() > n
            &&& after.take(n) == before
            &&& after[n] matches BusEvent::Sent { id, data, outcome }
            &&& id == CONTROLLER_ID
            &&& data == payload
            &&& match outcome {
                Err(_) => after.len() == n + 1 && result == Err::<Response, BusStatus>(
                    BusStatus::Error,
                ),
                Ok(_) => {
                    &&& after.len() == n + 2
                    &&& after[n + 1] matches BusEvent::Received { reply }
                    &&& result == match reply {
                        Err(_) => Err(BusStatus::Error),
                        Ok((_, answer)) => response_to(cmd, answer),
                    }
                },
            }
        },
    }
}

/// Builds the payload that carries `cmd`; `None` for `BadCommand`.
pub fn encode_command(cmd: &ControllerCommand, dname: &str) -> (r: Option<Vec<u8>>)
    ensures
        match r {
            Some(payload) => command_payload(*cmd, dname@) == Some(payload@),
            None => command_payload(*cmd, dname@) is None,
        },
{
    match cmd.opcode() {
        None => None,
        Some(opcode) => {
            let mut data: Vec<u8> = Vec::new();
            data.push(opcode);
            assert(data@ =~= seq![opcode]);
            match cmd {
                ControllerCommand::DataRequest => {
                    push_text(&mut data, dname);
                },
                _ => {},
            }
            Some(data)
        },
    }
}

/// Reads the payload that answered `cmd`.
pub fn decode_response(cmd: &ControllerCommand, data: Vec<u8>) -> (r: Result<CmdReturn, BusStatus>)
    ensures
        result_view(r) == response_to(*cmd, data@),
{
    let mut ret = CmdReturn::new();
    match cmd {
        ControllerCommand::NameRequest => {
            match text_of(data) {
                Some(name) => {
                    ret.name = name;
                },
                None => {
                    return Err(BusStatus::DataErr);
                },
            }
        },
        ControllerCommand::StatusRequest | ControllerCommand::ResetRequest => {
            if data.len() < 1 {
                return Err(BusStatus::DataErr);
            }
            proof {
                reveal_strlit("u8");
            }
            let tag = "u8".to_owned();
            assert(tag@ =~= DataType::U8.name());
            ret.data_names.push(STATUS_FIELD.to_owned());
            ret.format.push(tag);
            ret.raw_bytes.push(data[0]);
            assert(ret@.format =~= seq![DataType::U8.name()]);
            assert(ret@.data_names =~= seq![STATUS_FIELD@]);
            assert(ret@.raw_bytes =~= seq![data@[0]]);
        },
        ControllerCommand::FormattingRequest => {
            ret.raw_bytes = data;
            if ret.parse_raw_to_format().is_err() {
                return Err(BusStatus::DataErr);
            }
            assert(ret@.format =~= formats_in(data@)->Ok_0);
        },
        ControllerCommand::DnamesRequest => {
            ret.raw_bytes = data;
            if ret.parse_raw_to_dnames().is_err() {
                return Err(BusStatus::DataErr);
            }
            assert(ret@.data_names =~= names_in(data@)->Ok_0);
        },
        ControllerCommand::DataRequest => {
            ret.raw_bytes = data;
        },
        ControllerCommand::BadCommand => {
            return Err(BusStatus::Error);
        },
    }
    Ok(ret)
}

/// Issues one command on the bus and reads the response to it.
///
/// `dname` is the argument of a data request and is ignored for every other
/// command.
pub fn send_bus_command<B: Bus + ?Sized>(bus: &mut B, cmd: &ControllerCommand, dname: String) -> (r:
    Result<CmdReturn, BusStatus>)
    ensures
        exchanged(*cmd, dname@, old(bus).traffic(), final(bus).traffic(), result_view(r)),
{
    let ghost before = bus.traffic();
    let data = match encode_command(cmd, dname.as_str()) {
        Some(data) => data,
        None => {
            return Err(BusStatus::Error);
        },
    };
    let sent = bus.send_message(CONTROLLER_ID, &data);
    assert(bus.traffic().take(before.len() as int) =~= before);
    if sent.is_err() {
        return Err(BusStatus::Error);
    }
    let received = bus.receive_message();
    assert(bus.traffic().take(before.len() as int) =~= before);
    match received {
        Err(_) => Err(BusStatus::Error),
        Ok((_id, answer)) => decode_response(cmd, answer),
    }
}

} // verus!
