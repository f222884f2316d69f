//! The responder's side of the protocol: one request in, one reply out.

use crate::bus::{Bus, BusEvent};
use crate::cmd_return::{all_named, Response};
use crate::command::ControllerCommand;
use crate::controller::response_to;
use crate::field::{fields_of, DataType, FieldValue};
use crate::sensor::{SensorInterface, MAX_DATA};
use crate::status::{BusError, BusStatus, DecodeError};
use crate::text::{
    encoded, join, join_texts, lemma_space_free_encoding, lemma_texts_round_trip, push_text,
    space_free,
};
use vstd::prelude::*;
use vstd::utf8::*;

verus! {

/// Why a payload is no request that can be served, if it is none: `Unknown`
/// where it is empty or starts with a byte that is no opcode, `BadParameter`
/// where a data request lacks the index of the field.
pub open spec fn request_error(payload: Seq<u8>) -> Option<BusError> {
    if payload.len() == 0 {
        Some(BusError::Unknown)
    } else {
        match ControllerCommand::of_opcode(payload[0]) {
            ControllerCommand::BadCommand => Some(BusError::Unknown),
            ControllerCommand::DataRequest => if payload.len() < 2 {
                Some(BusError::BadParameter)
            } else {
                None
            },
            _ => None,
        }
    }
}

/// The reply to a request, taken from the sensor as serving the request
/// left it: the bytes of the name, the status byte, the status byte of the
/// reset, the list of type tags, the list of field names, or the bytes of
/// the field whose index follows the opcode.
pub open spec fn reply_to<S: SensorInterface + ?Sized>(payload: Seq<u8>, sens: &S) -> Seq<u8>
    recommends
        request_error(payload) is None,
{
    match ControllerCommand::of_opcode(payload[0]) {
        ControllerCommand::NameRequest => encode_utf8(sens.name()),
        ControllerCommand::StatusRequest => seq![sens.status().code()],
        ControllerCommand::ResetRequest => seq![sens.reset_status().code()],
        ControllerCommand::FormattingRequest => join(encoded(sens.format())),
        ControllerCommand::DnamesRequest => join(encoded(sens.data_names())),
        ControllerCommand::DataRequest => sens.reading(payload[1]).bytes(),
        ControllerCommand::BadCommand => Seq::empty(),
    }
}

/// True when serving the request in `payload` acts on the sensor: a reset
/// and the reading of a field do, the other requests only look.
pub open spec fn acts_on_sensor(payload: Seq<u8>) -> bool
    recommends
        request_error(payload) is None,
{
    ControllerCommand::of_opcode(payload[0]) == ControllerCommand::ResetRequest
        || ControllerCommand::of_opcode(payload[0]) == ControllerCommand::DataRequest
}

/// True when `after` is `before` followed by the serving of one request
/// that ended in `result` and turned the sensor `sens_before` into `sens`.
///
/// The bus is asked once for a frame, and its failure is the result. A
/// payload that is no request is answered with nothing, and the result says
/// why. A request is answered with one frame under `slv_id`, and the result
/// is what the bus said to it. The sensor is as it was unless the request
/// acts on it.
pub open spec fn served<S: SensorInterface + ?Sized>(
    slv_id: u32,
    before: Seq<BusEvent>,
    after: Seq<BusEvent>,
    sens_before: &S,
    sens: &S,
    result: Result<(), BusError>,
) -> bool {
    let n = before.len() as int;
    &&& after.len() > n
    &&& after.take(n) == before
    &&& after[n] matches BusEvent::Received { reply }
    &&& match reply {
        Err(e) => after.len() == n + 1 && result == Err::<(), BusError>(e) && sens == sens_before,
        Ok((_, payload)) => match request_error(payload) {
            Some(e) => after.len() == n + 1 && result == Err::<(), BusError>(e) && sens
                == sens_before,
            None => {
                &&& after.len() == n + 2
                &&& after[n + 1] matches BusEvent::Sent { id, data, outcome }
                &&& id == slv_id
                &&& data == reply_to(payload, sens)
                &&& result == outcome
                &&& acts_on_sensor(payload) || sens == sens_before
            },
        },
    }
}

/// The two ends agree: what the responder replies to a request is, to the
/// controller that sent the request, the response that holds what the
/// sensor said.
///
/// The name comes back as the name. A status comes back as one field that
/// decodes to the status byte. The type tags and the field names come back
/// as they are, provided there is at least one of them and each type tag
/// names a type, each field name holds no space. The bytes of a field come
/// back as the raw bytes.
pub proof fn lemma_reply_read_back<S: SensorInterface + ?Sized>(payload: Seq<u8>, sens: &S)
    requires
        request_error(payload) is None,
    ensures
        ({
            let cmd = ControllerCommand::of_opcode(payload[0]);
            let reply = reply_to(payload, sens);
            match cmd {
                ControllerCommand::NameRequest => response_to(cmd, reply) == Ok::<
                    Response,
                    BusStatus,
                >(Response { name: sens.name(), ..Response::empty() }),
                ControllerCommand::StatusRequest => response_to(cmd, reply) matches Ok(r)
                    && r.values() == Ok::<Seq<FieldValue>, DecodeError>(
                    seq![FieldValue::U8(sens.status().code())],
                ),
                ControllerCommand::ResetRequest => response_to(cmd, reply) matches Ok(r)
                    && r.values() == Ok::<Seq<FieldValue>, DecodeError>(
                    seq![FieldValue::U8(sens.reset_status().code())],
                ),
                ControllerCommand::FormattingRequest => sens.format().len() >= 1 && all_named(
                    sens.format(),
                ) ==> response_to(cmd, reply) == Ok::<Response, BusStatus>(
                    Response { format: sens.format(), raw_bytes: reply, ..Response::empty() },
                ),
                ControllerCommand::DnamesRequest => sens.data_names().len() >= 1 && (forall|
                    i: int,
                |
                    0 <= i < sens.data_names().len() ==> space_free(#[trigger] sens.data_names()[i]))
                    ==> response_to(cmd, reply) == Ok::<Response, BusStatus>(
                    Response {
                        data_names: sens.data_names(),
                        raw_bytes: reply,
                        ..Response::empty()
                    },
                ),
                ControllerCommand::DataRequest => response_to(cmd, reply) == Ok::<
                    Response,
                    BusStatus,
                >(Response { raw_bytes: sens.reading(payload[1]).bytes(), ..Response::empty() }),
                ControllerCommand::BadCommand => true,
            }
        }),
{
    let cmd = ControllerCommand::of_opcode(payload[0]);
    let reply = reply_to(payload, sens);
    match cmd {
        ControllerCommand::NameRequest => {
            encode_utf8_valid_utf8(sens.name());
            encode_utf8_decode_utf8(sens.name());
        },
        ControllerCommand::StatusRequest | ControllerCommand::ResetRequest => {
            DataType::lemma_named_name(DataType::U8);
            assert(reply.len() == 1);
            let r = response_to(cmd, reply)->Ok_0;
            let none = Seq::<FieldValue>::empty();
            assert(r.format.drop_first() =~= Seq::<Seq<char>>::empty());
            assert(r.raw_bytes.skip(1) =~= Seq::<u8>::empty());
            assert(fields_of(r.format.drop_first(), r.raw_bytes.skip(1)) == Ok::<
                Seq<FieldValue>,
                DecodeError,
            >(none));
            assert(seq![FieldValue::decoding(DataType::U8, r.raw_bytes.take(1))] + none
                =~= seq![FieldValue::U8(reply[0])]);
        },
        ControllerCommand::FormattingRequest => {
            let tags = sens.format();
            if tags.len() >= 1 && all_named(tags) {
                assert forall|i: int| 0 <= i < tags.len() implies space_free(
                    #[trigger] tags[i],
                ) by {
                    assert(DataType::named(tags[i]) is Some);
                }
                lemma_texts_round_trip(tags);
            }
        },
        ControllerCommand::DnamesRequest => {
            let names = sens.data_names();
            if names.len() >= 1 && (forall|i: int|
                0 <= i < names.len() ==> space_free(#[trigger] names[i])) {
                lemma_texts_round_trip(names);
            }
        },
        _ => {},
    }
}

/// Serves one request: takes a frame from the bus, asks the sensor what the
/// request in it is about, and sends the reply under `slv_id`.
pub fn handle_bus_command<B: Bus + ?Sized, S: SensorInterface + ?Sized>(
    slv_id: u32,
    bus: &mut B,
    sens: &mut S,
) -> (r: Result<(), BusError>)
    ensures
        served(slv_id, old(bus).traffic(), final(bus).traffic(), old(sens), final(sens), r),
{
    let ghost before = bus.traffic();
    let received = bus.receive_message();
    assert(bus.traffic().take(before.len() as int) =~= before);
    let master_data = match received {
        Ok((_id, master_data)) => master_data,
        Err(e) => {
            return Err(e);
        },
    };
    if master_data.len() == 0 {
        return Err(BusError::Unknown);
    }
    let cmd = ControllerCommand::from(master_data[0]);
    let mut write_buf: Vec<u8> = Vec::new();
    match cmd {
        ControllerCommand::NameRequest => {
            push_text(&mut write_buf, sens.get_name());
        },
        ControllerCommand::StatusRequest => {
            write_buf.push(sens.get_status().to_byte());
        },
        ControllerCommand::ResetRequest => {
            write_buf.push(sens.soft_reset().to_byte());
        },
        ControllerCommand::FormattingRequest => {
            write_buf = join_texts(&sens.get_format());
        },
        ControllerCommand::DnamesRequest => {
            write_buf = join_texts(&sens.get_data_names());
        },
        ControllerCommand::DataRequest => {
            if master_data.len() < 2 {
                return Err(BusError::BadParameter);
            }
            let sensor_info = sens.read_sensor(master_data[1]);
            let mut i: usize = 0;
            while i < sensor_info.size
                invariant
                    i <= sensor_info.size <= MAX_DATA,
                    write_buf@ == sensor_info.data@.take(i as int),
                decreases sensor_info.size - i,
            {
                write_buf.push(sensor_info.data[i]);
                assert(sensor_info.data@.take(i + 1) =~= sensor_info.data@.take(i as int).push(
                    sensor_info.data@[i as int],
                ));
                i += 1;
            }
        },
        ControllerCommand::BadCommand => {
            return Err(BusError::Unknown);
        },
    }
    assert(write_buf@ =~= reply_to(master_data@, &*sens));
    let sent = bus.send_message(slv_id, &write_buf);
    assert(bus.traffic().take(before.len() as int) =~= before);
    sent
}

} // verus!
