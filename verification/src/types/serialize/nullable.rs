//! Writing nullable columns.

use crate::errors::{ErrorKind, KlickhouseError};
use crate::io::append_bytes;
use crate::types::wire::{column_bytes, default_model, null_mask, nulls_replaced};
use crate::types::{Type, TypeModel};
use crate::values::{values_model, Value, ValueModel};
use vstd::prelude::*;

verus! {

/// Writes nullable columns.
pub struct NullableSerializer;

impl NullableSerializer {
    /// Writes `values` as a column of the nullable type `type_`: a mask of
    /// one byte per element, 1 where the element is absent, then the column
    /// of the inner type, with the zero of that type in the place of every
    /// absent element. A type that is not nullable is a protocol error, and
    /// nothing is written for it.
    pub fn write(type_: &Type, values: &Vec<Value>, writer: &mut Vec<u8>) -> (r: Result<
        (),
        KlickhouseError,
    >)
        ensures
            match type_@ {
                TypeModel::Nullable(_) => match column_bytes(type_@, values_model(values@)) {
                    Some(bytes) => r is Ok && final(writer)@ == old(writer)@ + bytes,
                    None => r matches Err(e) && e.kind() == ErrorKind::SerializeError,
                },
                _ => (r matches Err(e) && e.says(
                    ErrorKind::ProtocolError,
                    "unexpected type in nullable serializer"@,
                )) && final(writer)@ == old(writer)@,
            },
        decreases type_, 0nat,
    {
        let inner_type = match type_ {
            Type::Nullable(n) => n,
            _ => {
                return Err(
                    KlickhouseError::ProtocolError(
                        "unexpected type in nullable serializer".to_owned(),
                    ),
                );
            },
        };
        let ghost models = values_model(values@);
        let mut mask: Vec<u8> = Vec::new();
        let mut present: Vec<Value> = Vec::new();
        let mut i: usize = 0;
        while i < values.len()
            invariant
                *type_ matches Type::Nullable(n) && n == *inner_type,
                i <= values@.len(),
                models == values_model(values@),
                mask@.len() == i,
                present@.len() == i,
                forall|k: int| 0 <= k < i ==> (#[trigger] mask@[k]) == null_mask(models)[k],
                forall|k: int|
                    0 <= k < i ==> (#[trigger] present@[k])@ == nulls_replaced(
                        models,
                        default_model(inner_type@),
                    )[k],
            decreases values@.len() - i,
        {
            assert(models[i as int] == values@[i as int]@);
            match &values[i] {
                Value::Null => {
                    mask.push(1);
                    present.push(inner_type.default_value());
                },
                other => {
                    mask.push(0);
                    present.push(other.clone());
                },
            }
            i += 1;
        }
        assert(mask@ =~= null_mask(models));
        assert(values_model(present@) =~= nulls_replaced(models, default_model(inner_type@)));
        append_bytes(writer, mask.as_slice());
        let ghost masked = writer@;
        let r = inner_type.serialize_column(&present, writer);
        proof {
            match column_bytes(inner_type@, values_model(present@)) {
                Some(payload) => {
                    assert(writer@ =~= old(writer)@ + (null_mask(models) + payload));
                },
                None => {},
            }
        }
        r
    }
}

} // verus!
