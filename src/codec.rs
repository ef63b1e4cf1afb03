//! The two entry points: encode a native dictionary as a message of a named
//! type, and decode a message of a named type into a native dictionary.
use vstd::prelude::*;
use crate::decode::{decode_message, grows_by_pool_enums, lemma_grows_refl, spec_decode_message};
use crate::encode::{encode_to_message, message_result_view, spec_encode_message};
use crate::error::CodecError;
use crate::native::QValue;
use crate::proto::DynamicMessage;
use crate::registry::EnumRegistry;
use crate::schema::DescriptorPool;

verus! {

/// Encodes dictionary `data` as a message of the type named `message_name`.
/// An unknown type name fails with `UnknownMessageType`; otherwise the result
/// is that of [`encode_to_message`].
pub fn encode(pool: &DescriptorPool, message_name: &String, data: &QValue) -> (r: Result<DynamicMessage, CodecError>)
    requires
        pool.wf(),
    ensures
        pool.spec_find_message(message_name@) is None ==> r == Err::<DynamicMessage, CodecError>(
            CodecError::UnknownMessageType,
        ),
        pool.spec_find_message(message_name@) matches Some(d) ==> (message_result_view(r) == spec_encode_message(
            *pool,
            d,
            data@,
        ) && (r matches Ok(m) ==> m.descriptor == d)),
{
    match pool.get_message_by_name(message_name) {
        Some(d) => {
            proof {
                lemma_find_message_unique(*pool, message_name@, d);
            }
            encode_to_message(pool, d, data)
        },
        None => Err(CodecError::UnknownMessageType),
    }
}

/// Decodes `message`, parsed as the type named `message_name`, into a native
/// dictionary. An unknown type name fails with `UnknownMessageType`; a message
/// of another type fails with `DecodeFailure`.
pub fn decode(pool: &DescriptorPool, message_name: &String, message: &DynamicMessage, reg: &mut EnumRegistry) -> (r: Result<QValue, CodecError>)
    requires
        pool.wf(),
        old(reg).wf(),
    ensures
        final(reg).wf(),
        grows_by_pool_enums(*pool, *old(reg), *final(reg)),
        pool.spec_find_message(message_name@) is None ==> r == Err::<QValue, CodecError>(CodecError::UnknownMessageType),
        pool.spec_find_message(message_name@) matches Some(d) ==> if message.descriptor == d {
            r matches Ok(v) && v@ == spec_decode_message(*pool, d, message@->Message_1)
        } else {
            r == Err::<QValue, CodecError>(CodecError::DecodeFailure)
        },
{
    proof {
        lemma_grows_refl(*pool, *reg);
    }
    match pool.get_message_by_name(message_name) {
        Some(d) => {
            proof {
                lemma_find_message_unique(*pool, message_name@, d);
            }
            if message.descriptor == d {
                Ok(decode_message(pool, message, reg))
            } else {
                Err(CodecError::DecodeFailure)
            }
        },
        None => Err(CodecError::UnknownMessageType),
    }
}

/// The message type that a lookup finds is the one the pool names.
proof fn lemma_find_message_unique(pool: DescriptorPool, name: Seq<char>, d: usize)
    requires
        d < pool.messages@.len(),
        pool.messages@[d as int].full_name@ == name,
        pool.wf(),
    ensures
        pool.spec_find_message(name) == Some(d),
{
    let m = choose|m: usize| m < pool.messages@.len() && pool.messages@[m as int].full_name@ == name;
    assert(pool.messages@[m as int].full_name@ == pool.messages@[d as int].full_name@);
}

} // verus!
