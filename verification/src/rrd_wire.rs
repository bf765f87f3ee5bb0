//! The footer of an RRD as it lies on disk: framing and sizes, checked before it is decoded.

use crate::bytes;
use crate::import;
use crate::import::{ImportError, ImportErrorCode, ImportErrorView};
use crate::text;
use vstd::prelude::*;

verus! {

pub const MAX_RRD_FOOTER_BYTES: u64 = 67_108_864;
pub const MAX_RRD_MANIFESTS: usize = 64;
pub const MAX_RRD_MANIFEST_BYTES: usize = 33_554_432;
pub const MAX_RRD_MANIFEST_ARROW_BYTES: u64 = 67_108_864;
pub const MAX_RRD_FOOTER_DECODE_BUDGET_BYTES: u64 = 134_217_728;
pub const MAX_RRD_SCHEMA_BYTES: usize = 8_388_608;
pub const MAX_RRD_STORE_ID_BYTES: usize = 16_384;
pub const MAX_RRD_COMPRESSION_RATIO: u64 = 1000;

pub open spec fn resource_failure(detail: Seq<char>, path: Seq<char>) -> ImportErrorView {
    import::import_error(
        ImportErrorCode::ResourceLimitExceeded,
        "The RRD exceeds the safe chunk resource limits."@,
        detail + "\nFile path: "@ + path,
    )
}

pub open spec fn validation_failure(detail: Seq<char>, path: Seq<char>) -> ImportErrorView {
    import::import_error(
        ImportErrorCode::OutputValidationFailed,
        "The RRD chunk manifest or payload is corrupt."@,
        detail + "\nFile path: "@ + path,
    )
}

pub fn rrd_resource_error(detail: text::Line, path: &str) -> (r: ImportError)
    ensures
        r@ == resource_failure(detail@, path@),
{
    ImportError::new(
        ImportErrorCode::ResourceLimitExceeded,
        "The RRD exceeds the safe chunk resource limits.",
        detail.add("\nFile path: ").add(path).done(),
    )
}

pub fn rrd_validation_error(detail: text::Line, path: &str) -> (r: ImportError)
    ensures
        r@ == validation_failure(detail@, path@),
{
    ImportError::new(
        ImportErrorCode::OutputValidationFailed,
        "The RRD chunk manifest or payload is corrupt.",
        detail.add("\nFile path: ").add(path).done(),
    )
}

/// The number that a varint at `at` encodes from its byte `i` on, and where it ends: seven bits
/// a byte, lowest first, at most ten bytes and sixty-four bits.
pub open spec fn varint_from(b: Seq<u8>, at: int, i: int, path: Seq<char>) -> Result<
    (nat, int),
    ImportErrorView,
>
    decreases 10 - i,
{
    if at + i >= b.len() {
        Err(validation_failure("Protobuf varint is truncated"@, path))
    } else if i >= 9 && b[at + i] > 1 {
        Err(validation_failure("Protobuf varint overflows u64"@, path))
    } else if b[at + i] < 128 || i >= 9 {
        Ok((b[at + i] as nat, at + i + 1))
    } else {
        match varint_from(b, at, i + 1, path) {
            Ok((high, end)) => Ok(((b[at + i] - 128 + 128 * high) as nat, end)),
            Err(e) => Err(e),
        }
    }
}

pub open spec fn varint(b: Seq<u8>, at: int, path: Seq<char>) -> Result<(nat, int), ImportErrorView> {
    varint_from(b, at, 0, path)
}

proof fn lemma_varint_end(b: Seq<u8>, at: int, i: int, path: Seq<char>)
    requires
        0 <= at,
        0 <= i <= 9,
    ensures
        varint_from(b, at, i, path) matches Ok((_, end)) ==> at + i < end <= b.len(),
    decreases 10 - i,
{
    if i < 9 {
        lemma_varint_end(b, at, i + 1, path);
    }
}

/// What the rest of a varint adds to the bits that were read.
spec fn lifted(r: Result<(nat, int), ImportErrorView>, read: nat, scale: nat) -> Result<
    (nat, int),
    ImportErrorView,
> {
    match r {
        Ok((high, end)) => Ok((read + scale * high, end)),
        Err(e) => Err(e),
    }
}

proof fn lemma_lift(read: nat, scale: nat, low: nat, high: nat)
    ensures
        read + scale * (low + 128 * high) == (read + scale * low) + (scale * 128) * high,
{
    assert(read + scale * (low + 128 * high) == (read + scale * low) + (scale * 128) * high)
        by (nonlinear_arith);
}

/// Reads a varint.
pub fn read_proto_varint(b: &[u8], at: usize, path: &str) -> (r: Result<(u64, usize), ImportError>)
    requires
        at <= b@.len(),
    ensures
        match r {
            Ok((value, end)) => varint(b@, at as int, path@) == Ok::<(nat, int), ImportErrorView>(
                (value as nat, end as int),
            ) && at < end <= b@.len(),
            Err(e) => varint(b@, at as int, path@) == Err::<(nat, int), ImportErrorView>(e@),
        },
{
    let size: usize = b.len();
    let mut value: u64 = 0;
    let mut scale: u64 = 1;
    let mut i: usize = 0;
    proof {
        assert(lifted(varint_from(b@, at as int, 0, path@), 0, 1) == varint_from(
            b@,
            at as int,
            0,
            path@,
        )) by {
            match varint_from(b@, at as int, 0, path@) {
                Ok((high, end)) => {
                    assert(1 * high == high);
                },
                Err(_) => {},
            }
        }
        lemma_varint_end(b@, at as int, 0, path@);
    }
    loop
        invariant
            size == b@.len(),
            at + i <= size,
            0 <= i <= 9,
            value < scale,
            scale == pow128(i as nat),
            varint(b@, at as int, path@) == lifted(
                varint_from(b@, at as int, i as int, path@),
                value as nat,
                scale as nat,
            ),
        decreases 10 - i,
    {
        proof {
            lemma_pow128(i as nat);
        }
        if at + i >= size {
            return Err(rrd_validation_error(text::line("Protobuf varint is truncated"), path));
        }
        let byte: u8 = b[at + i];
        if i == 9 && byte > 1 {
            return Err(rrd_validation_error(text::line("Protobuf varint overflows u64"), path));
        }
        if byte < 128 || i == 9 {
            proof {
                assert(scale * byte <= scale * 127) by (nonlinear_arith)
                    requires
                        byte <= 127,
                ;
                if i == 9 {
                    assert(scale * byte <= scale) by (nonlinear_arith)
                        requires
                            byte <= 1,
                    ;
                }
            }
            let last: u64 = value + scale * (byte as u64);
            return Ok((last, at + i + 1));
        }
        let low: u64 = (byte - 128) as u64;
        proof {
            assert(scale * low <= scale * 127) by (nonlinear_arith)
                requires
                    low <= 127,
            ;
            match varint_from(b@, at as int, i + 1, path@) {
                Ok((high, end)) => {
                    lemma_lift(value as nat, scale as nat, low as nat, high);
                },
                Err(_) => {},
            }
        }
        value = value + scale * low;
        scale = scale * 128;
        i = i + 1;
    }
}

spec fn pow128(i: nat) -> nat
    decreases i,
{
    if i == 0 {
        1
    } else {
        128 * pow128((i - 1) as nat)
    }
}

proof fn lemma_pow128(i: nat)
    requires
        i <= 9,
    ensures
        pow128(i) >= 1,
        pow128(i + 1) == 128 * pow128(i),
        i < 9 ==> 128 * pow128(i) <= 0x8000_0000_0000_0000,
        i == 9 ==> pow128(i) == 0x8000_0000_0000_0000,
{
    reveal_with_fuel(pow128, 11);
    assert(pow128(1) == 128);
    assert(pow128(2) == 16384);
    assert(pow128(3) == 2097152);
    assert(pow128(4) == 268435456);
    assert(pow128(5) == 34359738368);
    assert(pow128(6) == 4398046511104);
    assert(pow128(7) == 562949953421312);
    assert(pow128(8) == 72057594037927936);
    assert(pow128(9) == 9223372036854775808);
}

/// The field number and the wire type of the field at `at`, and where its value begins.
pub open spec fn field_key(b: Seq<u8>, at: int, path: Seq<char>) -> Result<
    (nat, nat, int),
    ImportErrorView,
> {
    match varint(b, at, path) {
        Err(e) => Err(e),
        Ok((key, end)) => if key / 8 == 0 {
            Err(validation_failure("Protobuf field number is zero"@, path))
        } else {
            Ok((key / 8, key % 8, end))
        },
    }
}

/// Reads the key of a field.
pub fn read_proto_key(b: &[u8], at: usize, path: &str) -> (r: Result<(u64, u8, usize), ImportError>)
    requires
        at <= b@.len(),
    ensures
        match r {
            Ok((field, wire, end)) => field_key(b@, at as int, path@) == Ok::<
                (nat, nat, int),
                ImportErrorView,
            >((field as nat, wire as nat, end as int)) && at < end <= b@.len() && field > 0,
            Err(e) => field_key(b@, at as int, path@) == Err::<(nat, nat, int), ImportErrorView>(
                e@,
            ),
        },
{
    let (key, end) = match read_proto_varint(b, at, path) {
        Ok(found) => found,
        Err(e) => {
            return Err(e);
        },
    };
    let field: u64 = key / 8;
    let wire: u8 = (key % 8) as u8;
    if field == 0 {
        return Err(rrd_validation_error(text::line("Protobuf field number is zero"), path));
    }
    Ok((field, wire, end))
}

/// Where the bytes of the length-delimited field at `at` begin and end.
pub open spec fn field_span(b: Seq<u8>, at: int, path: Seq<char>) -> Result<
    (int, int),
    ImportErrorView,
> {
    match varint(b, at, path) {
        Err(e) => Err(e),
        Ok((len, from)) => if len > usize::MAX {
            Err(
                resource_failure(
                    "Protobuf byte length does not fit memory: out of range integral type conversion attempted"@,
                    path,
                ),
            )
        } else if from + len > usize::MAX {
            Err(validation_failure("Protobuf byte span overflow"@, path))
        } else if from + len > b.len() {
            Err(validation_failure("Protobuf byte field is truncated"@, path))
        } else {
            Ok((from, from + len as int))
        },
    }
}

/// Reads the span of a length-delimited field.
pub fn read_proto_bytes(b: &[u8], at: usize, path: &str) -> (r: Result<(usize, usize), ImportError>)
    requires
        at <= b@.len(),
    ensures
        match r {
            Ok((from, to)) => field_span(b@, at as int, path@) == Ok::<(int, int), ImportErrorView>(
                (from as int, to as int),
            ) && at < from <= to <= b@.len(),
            Err(e) => field_span(b@, at as int, path@) == Err::<(int, int), ImportErrorView>(e@),
        },
{
    let (len, from) = match read_proto_varint(b, at, path) {
        Ok(found) => found,
        Err(e) => {
            return Err(e);
        },
    };
    if len > usize::MAX as u64 {
        return Err(
            rrd_resource_error(
                text::line(
                    "Protobuf byte length does not fit memory: out of range integral type conversion attempted",
                ),
                path,
            ),
        );
    }
    let to: usize = match from.checked_add(len as usize) {
        Some(to) => to,
        None => {
            return Err(rrd_validation_error(text::line("Protobuf byte span overflow"), path));
        },
    };
    let size: usize = b.len();
    if to > size {
        return Err(rrd_validation_error(text::line("Protobuf byte field is truncated"), path));
    }
    Ok((from, to))
}

proof fn lemma_key_end(b: Seq<u8>, at: int, path: Seq<char>)
    requires
        0 <= at,
    ensures
        field_key(b, at, path) matches Ok((_, _, end)) ==> at < end <= b.len(),
{
    lemma_varint_end(b, at, 0, path);
}

proof fn lemma_span_end(b: Seq<u8>, at: int, path: Seq<char>)
    requires
        0 <= at,
    ensures
        field_span(b, at, path) matches Ok((from, to)) ==> at < from <= to <= b.len(),
{
    lemma_varint_end(b, at, 0, path);
}

/// Whether a payload of `encoded` bytes may grow to `decoded` bytes.
pub open spec fn within_ratio(decoded: u64, encoded: u64) -> bool {
    encoded * MAX_RRD_COMPRESSION_RATIO > u64::MAX || decoded <= encoded
        * MAX_RRD_COMPRESSION_RATIO
}

pub fn is_within_ratio(decoded: u64, encoded: u64) -> (r: bool)
    ensures
        r == within_ratio(decoded, encoded),
{
    match encoded.checked_mul(MAX_RRD_COMPRESSION_RATIO) {
        Some(limit) => decoded <= limit,
        None => true,
    }
}

/// The fault of a Sorbet schema message.
pub open spec fn schema_failure(b: Seq<u8>, path: Seq<char>) -> Option<ImportErrorView> {
    match field_key(b, 0, path) {
        Err(e) => Some(e),
        Ok((field, wire, at)) => if field != 1 || wire != 2 {
            Some(
                validation_failure("RRD manifest Sorbet schema has an invalid protobuf shape"@, path),
            )
        } else {
            match field_span(b, at, path) {
                Err(e) => Some(e),
                Ok((from, to)) => if to == from || to - from > MAX_RRD_SCHEMA_BYTES {
                    Some(
                        resource_failure(
                            "RRD Sorbet schema is "@ + text::decimal((to - from) as nat)
                                + " bytes; maximum is "@ + text::decimal(
                                MAX_RRD_SCHEMA_BYTES as nat,
                            ),
                            path,
                        ),
                    )
                } else if to != b.len() {
                    Some(
                        validation_failure(
                            "RRD manifest Sorbet schema contains duplicate or unknown fields"@,
                            path,
                        ),
                    )
                } else {
                    None
                },
            }
        },
    }
}

/// What a check found wrong.
pub open spec fn fault(r: Result<(), ImportError>) -> Option<ImportErrorView> {
    match r {
        Ok(()) => None,
        Err(e) => Some(e@),
    }
}

/// Checks the size and shape of a Sorbet schema message.
pub fn preflight_rrd_schema_wire(schema: &[u8], path: &str) -> (r: Result<(), ImportError>)
    ensures
        fault(r) == schema_failure(schema@, path@),
{
    let (field, wire, at) = match read_proto_key(schema, 0, path) {
        Ok(found) => found,
        Err(e) => {
            return Err(e);
        },
    };
    if field != 1 || wire != 2 {
        return Err(
            rrd_validation_error(
                text::line("RRD manifest Sorbet schema has an invalid protobuf shape"),
                path,
            ),
        );
    }
    let (from, to) = match read_proto_bytes(schema, at, path) {
        Ok(found) => found,
        Err(e) => {
            return Err(e);
        },
    };
    let len: usize = to - from;
    if len == 0 || len > MAX_RRD_SCHEMA_BYTES {
        return Err(
            rrd_resource_error(
                text::line("RRD Sorbet schema is ").num(len as u64).add(
                    " bytes; maximum is ",
                ).num(MAX_RRD_SCHEMA_BYTES as u64),
                path,
            ),
        );
    }
    let size: usize = schema.len();
    if to != size {
        return Err(
            rrd_validation_error(
                text::line("RRD manifest Sorbet schema contains duplicate or unknown fields"),
                path,
            ),
        );
    }
    Ok(())
}

/// The fields of a dataframe message that were read so far.
#[derive(Clone, Copy, Debug, PartialEq, Eq, Structural)]
pub struct DataframeFields {
    pub has_version: bool,
    pub has_payload: bool,
    pub payload_size: u64,
    pub has_compression: bool,
    pub compression: u64,
    pub has_uncompressed: bool,
    pub uncompressed_size: u64,
}

pub open spec fn no_fields() -> DataframeFields {
    DataframeFields {
        has_version: false,
        has_payload: false,
        payload_size: 0,
        has_compression: false,
        compression: 0,
        has_uncompressed: false,
        uncompressed_size: 0,
    }
}

/// The fields of a dataframe message after one more field, and where that ends.
pub open spec fn dataframe_step(b: Seq<u8>, at: int, f: DataframeFields, path: Seq<char>) -> Result<
    (DataframeFields, int),
    ImportErrorView,
> {
    match field_key(b, at, path) {
        Err(e) => Err(e),
        Ok((field, wire, from)) => if field == 1 && wire == 0 && !f.has_version {
            match varint(b, from, path) {
                Err(e) => Err(e),
                Ok((_, end)) => Ok((DataframeFields { has_version: true, ..f }, end)),
            }
        } else if field == 2 && wire == 2 && !f.has_payload {
            match field_span(b, from, path) {
                Err(e) => Err(e),
                Ok((start, end)) => Ok(
                    (
                        DataframeFields {
                            has_payload: true,
                            payload_size: (end - start) as u64,
                            ..f
                        },
                        end,
                    ),
                ),
            }
        } else if field == 3 && wire == 0 && !f.has_compression {
            match varint(b, from, path) {
                Err(e) => Err(e),
                Ok((v, end)) => Ok(
                    (DataframeFields { has_compression: true, compression: v as u64, ..f }, end),
                ),
            }
        } else if field == 4 && wire == 0 && !f.has_uncompressed {
            match varint(b, from, path) {
                Err(e) => Err(e),
                Ok((v, end)) => Ok(
                    (
                        DataframeFields { has_uncompressed: true, uncompressed_size: v as u64, ..f },
                        end,
                    ),
                ),
            }
        } else {
            Err(
                validation_failure(
                    "RRD manifest DataframePart contains duplicate/unknown field "@ + text::decimal(
                        field,
                    ) + " or wire type "@ + text::decimal(wire),
                    path,
                ),
            )
        },
    }
}

pub proof fn lemma_dataframe_step_end(b: Seq<u8>, at: int, f: DataframeFields, path: Seq<char>)
    requires
        0 <= at,
    ensures
        dataframe_step(b, at, f, path) matches Ok((_, end)) ==> at < end <= b.len(),
{
    lemma_key_end(b, at, path);
    match field_key(b, at, path) {
        Ok((_, _, from)) => {
            lemma_varint_end(b, from, 0, path);
            lemma_span_end(b, from, path);
        },
        Err(_) => {},
    }
}

/// All fields of a dataframe message from `at` on.
pub open spec fn dataframe_fields(b: Seq<u8>, at: int, f: DataframeFields, path: Seq<char>) -> Result<
    DataframeFields,
    ImportErrorView,
>
    decreases b.len() - at,
{
    if at < 0 || at >= b.len() {
        Ok(f)
    } else {
        proof {
            lemma_dataframe_step_end(b, at, f, path);
        }
        match dataframe_step(b, at, f, path) {
            Err(e) => Err(e),
            Ok((g, end)) => dataframe_fields(b, end, g, path),
        }
    }
}

/// The encoded and the decoded size of a dataframe, from its fields.
pub open spec fn dataframe_sizes(f: DataframeFields, path: Seq<char>) -> Result<
    (u64, u64),
    ImportErrorView,
> {
    if !f.has_payload {
        Err(validation_failure("RRD manifest DataframePart has no Arrow payload"@, path))
    } else if f.payload_size == 0 || f.payload_size > MAX_RRD_MANIFEST_ARROW_BYTES {
        Err(
            resource_failure(
                "RRD manifest Arrow payload is "@ + text::decimal(f.payload_size as nat)
                    + " bytes; maximum is "@ + text::decimal(MAX_RRD_MANIFEST_ARROW_BYTES as nat),
                path,
            ),
        )
    } else if f.uncompressed_size > MAX_RRD_MANIFEST_ARROW_BYTES {
        Err(
            resource_failure(
                "RRD manifest declares "@ + text::decimal(f.uncompressed_size as nat)
                    + " uncompressed Arrow bytes; maximum is "@ + text::decimal(
                    MAX_RRD_MANIFEST_ARROW_BYTES as nat,
                ),
                path,
            ),
        )
    } else if f.compression > 2 {
        Err(
            validation_failure(
                "RRD manifest uses unknown compression value "@ + text::decimal(
                    f.compression as nat,
                ),
                path,
            ),
        )
    } else if f.compression == 2 && (f.uncompressed_size == 0 || !within_ratio(
        f.uncompressed_size,
        f.payload_size,
    )) {
        Err(
            resource_failure(
                "RRD manifest Arrow payload exceeds compression ratio "@ + text::decimal(
                    MAX_RRD_COMPRESSION_RATIO as nat,
                ) + ":1"@,
                path,
            ),
        )
    } else if f.compression == 2 {
        Ok((f.payload_size, f.uncompressed_size))
    } else {
        Ok((f.payload_size, f.payload_size))
    }
}

/// The encoded and the decoded size of a dataframe message.
pub open spec fn dataframe_budget(b: Seq<u8>, path: Seq<char>) -> Result<(u64, u64), ImportErrorView> {
    match dataframe_fields(b, 0, no_fields(), path) {
        Err(e) => Err(e),
        Ok(f) => dataframe_sizes(f, path),
    }
}

fn read_dataframe_field(b: &[u8], at: usize, f: DataframeFields, path: &str) -> (r: Result<
    (DataframeFields, usize),
    ImportError,
>)
    requires
        at <= b@.len(),
    ensures
        match r {
            Ok((g, end)) => dataframe_step(b@, at as int, f, path@) == Ok::<
                (DataframeFields, int),
                ImportErrorView,
            >((g, end as int)) && at < end <= b@.len(),
            Err(e) => dataframe_step(b@, at as int, f, path@) == Err::<
                (DataframeFields, int),
                ImportErrorView,
            >(e@),
        },
{
    let (field, wire, from) = match read_proto_key(b, at, path) {
        Ok(found) => found,
        Err(e) => {
            return Err(e);
        },
    };
    if field == 1 && wire == 0 && !f.has_version {
        match read_proto_varint(b, from, path) {
            Err(e) => Err(e),
            Ok((_, end)) => Ok((DataframeFields { has_version: true, ..f }, end)),
        }
    } else if field == 2 && wire == 2 && !f.has_payload {
        match read_proto_bytes(b, from, path) {
            Err(e) => Err(e),
            Ok((start, end)) => Ok(
                (
                    DataframeFields {
                        has_payload: true,
                        payload_size: (end - start) as u64,
                        ..f
                    },
                    end,
                ),
            ),
        }
    } else if field == 3 && wire == 0 && !f.has_compression {
        match read_proto_varint(b, from, path) {
            Err(e) => Err(e),
            Ok((v, end)) => Ok((DataframeFields { has_compression: true, compression: v, ..f }, end)),
        }
    } else if field == 4 && wire == 0 && !f.has_uncompressed {
        match read_proto_varint(b, from, path) {
            Err(e) => Err(e),
            Ok((v, end)) => Ok(
                (DataframeFields { has_uncompressed: true, uncompressed_size: v, ..f }, end),
            ),
        }
    } else {
        Err(
            rrd_validation_error(
                text::line("RRD manifest DataframePart contains duplicate/unknown field ").num(
                    field,
                ).add(" or wire type ").num(wire as u64),
                path,
            ),
        )
    }
}

/// Checks a dataframe message and says how much its decoding takes.
pub fn preflight_rrd_dataframe_wire(data: &[u8], path: &str) -> (r: Result<(u64, u64), ImportError>)
    ensures
        import::outcome(r) == dataframe_budget(data@, path@),
{
    let size: usize = data.len();
    let mut at: usize = 0;
    let mut f = DataframeFields {
        has_version: false,
        has_payload: false,
        payload_size: 0,
        has_compression: false,
        compression: 0,
        has_uncompressed: false,
        uncompressed_size: 0,
    };
    while at < size
        invariant
            size == data@.len(),
            at <= size,
            dataframe_fields(data@, 0, no_fields(), path@) == dataframe_fields(
                data@,
                at as int,
                f,
                path@,
            ),
        decreases size - at,
    {
        let (g, end) = match read_dataframe_field(data, at, f, path) {
            Ok(found) => found,
            Err(e) => {
                return Err(e);
            },
        };
        f = g;
        at = end;
    }
    if !f.has_payload {
        return Err(
            rrd_validation_error(
                text::line("RRD manifest DataframePart has no Arrow payload"),
                path,
            ),
        );
    }
    if f.payload_size == 0 || f.payload_size > MAX_RRD_MANIFEST_ARROW_BYTES {
        return Err(
            rrd_resource_error(
                text::line("RRD manifest Arrow payload is ").num(f.payload_size).add(
                    " bytes; maximum is ",
                ).num(MAX_RRD_MANIFEST_ARROW_BYTES),
                path,
            ),
        );
    }
    if f.uncompressed_size > MAX_RRD_MANIFEST_ARROW_BYTES {
        return Err(
            rrd_resource_error(
                text::line("RRD manifest declares ").num(f.uncompressed_size).add(
                    " uncompressed Arrow bytes; maximum is ",
                ).num(MAX_RRD_MANIFEST_ARROW_BYTES),
                path,
            ),
        );
    }
    if f.compression > 2 {
        return Err(
            rrd_validation_error(
                text::line("RRD manifest uses unknown compression value ").num(f.compression),
                path,
            ),
        );
    }
    if f.compression == 2 {
        if f.uncompressed_size == 0 || !is_within_ratio(f.uncompressed_size, f.payload_size) {
            return Err(
                rrd_resource_error(
                    text::line("RRD manifest Arrow payload exceeds compression ratio ").num(
                        MAX_RRD_COMPRESSION_RATIO,
                    ).add(":1"),
                    path,
                ),
            );
        }
        return Ok((f.payload_size, f.uncompressed_size));
    }
    Ok((f.payload_size, f.payload_size))
}

/// What was read of a manifest message so far.
#[derive(Clone, Copy, Debug, PartialEq, Eq, Structural)]
pub struct ManifestFields {
    pub has_store: bool,
    pub has_schema: bool,
    pub has_digest: bool,
    pub has_data: bool,
    pub encoded_bytes: u64,
    pub decoded_bytes: u64,
}

pub open spec fn empty_manifest() -> ManifestFields {
    ManifestFields {
        has_store: false,
        has_schema: false,
        has_digest: false,
        has_data: false,
        encoded_bytes: 0,
        decoded_bytes: 0,
    }
}

pub open spec fn was_read(f: ManifestFields, field: nat) -> bool {
    (field == 1 && f.has_store) || (field == 2 && f.has_schema) || (field == 3 && f.has_digest) || (
    field == 4 && f.has_data)
}

/// A manifest message after the content of one more field.
pub open spec fn manifest_content(f: ManifestFields, field: nat, content: Seq<u8>, path: Seq<char>) -> Result<
    ManifestFields,
    ImportErrorView,
> {
    if field == 1 {
        if content.len() > MAX_RRD_STORE_ID_BYTES {
            Err(resource_failure("RRD manifest StoreId exceeds 16 KiB"@, path))
        } else {
            Ok(ManifestFields { has_store: true, ..f })
        }
    } else if field == 2 {
        match schema_failure(content, path) {
            Some(e) => Err(e),
            None => Ok(ManifestFields { has_schema: true, ..f }),
        }
    } else if field == 3 {
        if content.len() != 32 {
            Err(
                validation_failure(
                    "RRD manifest schema SHA256 is "@ + text::decimal(content.len())
                        + " bytes; expected 32"@,
                    path,
                ),
            )
        } else {
            Ok(ManifestFields { has_digest: true, ..f })
        }
    } else {
        match dataframe_budget(content, path) {
            Err(e) => Err(e),
            Ok((encoded, decoded)) => Ok(
                ManifestFields {
                    has_data: true,
                    encoded_bytes: encoded,
                    decoded_bytes: decoded,
                    ..f
                },
            ),
        }
    }
}

/// A manifest message after one more field, and where that ends.
pub open spec fn manifest_step(b: Seq<u8>, at: int, f: ManifestFields, path: Seq<char>) -> Result<
    (ManifestFields, int),
    ImportErrorView,
> {
    match field_key(b, at, path) {
        Err(e) => Err(e),
        Ok((field, wire, from)) => if field < 1 || field > 4 || was_read(f, field) {
            Err(
                validation_failure(
                    "RRD manifest contains duplicate or unknown protobuf field "@ + text::decimal(
                        field,
                    ),
                    path,
                ),
            )
        } else if wire != 2 {
            Err(
                validation_failure(
                    "RRD manifest field "@ + text::decimal(field)
                        + " has unsupported wire type "@ + text::decimal(wire),
                    path,
                ),
            )
        } else {
            match field_span(b, from, path) {
                Err(e) => Err(e),
                Ok((start, end)) => match manifest_content(
                    f,
                    field,
                    b.subrange(start, end),
                    path,
                ) {
                    Err(e) => Err(e),
                    Ok(g) => Ok((g, end)),
                },
            }
        },
    }
}

pub proof fn lemma_manifest_step_end(b: Seq<u8>, at: int, f: ManifestFields, path: Seq<char>)
    requires
        0 <= at,
    ensures
        manifest_step(b, at, f, path) matches Ok((_, end)) ==> at < end <= b.len(),
{
    lemma_key_end(b, at, path);
    match field_key(b, at, path) {
        Ok((_, _, from)) => {
            lemma_span_end(b, from, path);
        },
        Err(_) => {},
    }
}

/// All fields of a manifest message from `at` on.
pub open spec fn manifest_fields(b: Seq<u8>, at: int, f: ManifestFields, path: Seq<char>) -> Result<
    ManifestFields,
    ImportErrorView,
>
    decreases b.len() - at,
{
    if at < 0 || at >= b.len() {
        Ok(f)
    } else {
        proof {
            lemma_manifest_step_end(b, at, f, path);
        }
        match manifest_step(b, at, f, path) {
            Err(e) => Err(e),
            Ok((g, end)) => manifest_fields(b, end, g, path),
        }
    }
}

/// The encoded and the decoded size of the dataframe in a manifest message.
pub open spec fn manifest_budget(b: Seq<u8>, path: Seq<char>) -> Result<(u64, u64), ImportErrorView> {
    match manifest_fields(b, 0, empty_manifest(), path) {
        Err(e) => Err(e),
        Ok(f) => if !(f.has_store && f.has_schema && f.has_digest && f.has_data) {
            Err(
                validation_failure("RRD manifest is missing one or more required fields"@, path),
            )
        } else {
            Ok((f.encoded_bytes, f.decoded_bytes))
        },
    }
}

fn read_manifest_field(b: &[u8], at: usize, f: ManifestFields, path: &str) -> (r: Result<
    (ManifestFields, usize),
    ImportError,
>)
    requires
        at <= b@.len(),
    ensures
        match r {
            Ok((g, end)) => manifest_step(b@, at as int, f, path@) == Ok::<
                (ManifestFields, int),
                ImportErrorView,
            >((g, end as int)) && at < end <= b@.len(),
            Err(e) => manifest_step(b@, at as int, f, path@) == Err::<
                (ManifestFields, int),
                ImportErrorView,
            >(e@),
        },
{
    let (field, wire, from) = match read_proto_key(b, at, path) {
        Ok(found) => found,
        Err(e) => {
            return Err(e);
        },
    };
    if field > 4 || (field == 1 && f.has_store) || (field == 2 && f.has_schema) || (field == 3
        && f.has_digest) || (field == 4 && f.has_data) {
        return Err(
            rrd_validation_error(
                text::line("RRD manifest contains duplicate or unknown protobuf field ").num(field),
                path,
            ),
        );
    }
    if wire != 2 {
        return Err(
            rrd_validation_error(
                text::line("RRD manifest field ").num(field).add(
                    " has unsupported wire type ",
                ).num(wire as u64),
                path,
            ),
        );
    }
    let (start, end) = match read_proto_bytes(b, from, path) {
        Ok(found) => found,
        Err(e) => {
            return Err(e);
        },
    };
    let content = bytes::slice_between(b, start, end);
    let len: usize = content.len();
    if field == 1 {
        if len > MAX_RRD_STORE_ID_BYTES {
            return Err(
                rrd_resource_error(text::line("RRD manifest StoreId exceeds 16 KiB"), path),
            );
        }
        Ok((ManifestFields { has_store: true, ..f }, end))
    } else if field == 2 {
        match preflight_rrd_schema_wire(content, path) {
            Err(e) => Err(e),
            Ok(()) => Ok((ManifestFields { has_schema: true, ..f }, end)),
        }
    } else if field == 3 {
        if len != 32 {
            return Err(
                rrd_validation_error(
                    text::line("RRD manifest schema SHA256 is ").num(len as u64).add(
                        " bytes; expected 32",
                    ),
                    path,
                ),
            );
        }
        Ok((ManifestFields { has_digest: true, ..f }, end))
    } else {
        match preflight_rrd_dataframe_wire(content, path) {
            Err(e) => Err(e),
            Ok((encoded, decoded)) => Ok(
                (
                    ManifestFields {
                        has_data: true,
                        encoded_bytes: encoded,
                        decoded_bytes: decoded,
                        ..f
                    },
                    end,
                ),
            ),
        }
    }
}

/// Checks a manifest message and says how much the decoding of its dataframe takes.
pub fn preflight_rrd_manifest_wire(manifest: &[u8], path: &str) -> (r: Result<
    (u64, u64),
    ImportError,
>)
    ensures
        import::outcome(r) == manifest_budget(manifest@, path@),
{
    let size: usize = manifest.len();
    let mut at: usize = 0;
    let mut f = ManifestFields {
        has_store: false,
        has_schema: false,
        has_digest: false,
        has_data: false,
        encoded_bytes: 0,
        decoded_bytes: 0,
    };
    while at < size
        invariant
            size == manifest@.len(),
            at <= size,
            manifest_fields(manifest@, 0, empty_manifest(), path@) == manifest_fields(
                manifest@,
                at as int,
                f,
                path@,
            ),
        decreases size - at,
    {
        let (g, end) = match read_manifest_field(manifest, at, f, path) {
            Ok(found) => found,
            Err(e) => {
                return Err(e);
            },
        };
        f = g;
        at = end;
    }
    if !(f.has_store && f.has_schema && f.has_digest && f.has_data) {
        return Err(
            rrd_validation_error(
                text::line("RRD manifest is missing one or more required fields"),
                path,
            ),
        );
    }
    Ok((f.encoded_bytes, f.decoded_bytes))
}

/// What was counted of a footer so far.
#[derive(Clone, Copy, Debug, PartialEq, Eq, Structural)]
pub struct FooterCount {
    pub manifests: usize,
    pub budget: u64,
}

/// The count after one more manifest, and where that ends.
pub open spec fn footer_step(b: Seq<u8>, at: int, c: FooterCount, path: Seq<char>) -> Result<
    (FooterCount, int),
    ImportErrorView,
> {
    match field_key(b, at, path) {
        Err(e) => Err(e),
        Ok((field, wire, from)) => if field != 1 || wire != 2 {
            Err(
                validation_failure(
                    "RRD footer contains unexpected protobuf field "@ + text::decimal(field)
                        + " with wire type "@ + text::decimal(wire),
                    path,
                ),
            )
        } else {
            match field_span(b, from, path) {
                Err(e) => Err(e),
                Ok((start, end)) => if c.manifests + 1 > MAX_RRD_MANIFESTS {
                    Err(
                        resource_failure(
                            "RRD footer has more than "@ + text::decimal(MAX_RRD_MANIFESTS as nat)
                                + " manifests"@,
                            path,
                        ),
                    )
                } else if end - start > MAX_RRD_MANIFEST_BYTES {
                    Err(
                        resource_failure(
                            "RRD manifest is "@ + text::decimal((end - start) as nat)
                                + " bytes; maximum is "@ + text::decimal(
                                MAX_RRD_MANIFEST_BYTES as nat,
                            ),
                            path,
                        ),
                    )
                } else {
                    match manifest_budget(b.subrange(start, end), path) {
                        Err(e) => Err(e),
                        Ok((encoded, decoded)) => if c.budget + encoded + decoded
                            > MAX_RRD_FOOTER_DECODE_BUDGET_BYTES {
                            Err(
                                resource_failure(
                                    "RRD footer Arrow payloads require more than "@ + text::decimal(
                                        MAX_RRD_FOOTER_DECODE_BUDGET_BYTES as nat,
                                    ) + " bytes while decoding"@,
                                    path,
                                ),
                            )
                        } else {
                            Ok(
                                (
                                    FooterCount {
                                        manifests: (c.manifests + 1) as usize,
                                        budget: (c.budget + encoded + decoded) as u64,
                                    },
                                    end,
                                ),
                            )
                        },
                    }
                },
            }
        },
    }
}

pub proof fn lemma_footer_step_end(b: Seq<u8>, at: int, c: FooterCount, path: Seq<char>)
    requires
        0 <= at,
    ensures
        footer_step(b, at, c, path) matches Ok((_, end)) ==> at < end <= b.len(),
{
    lemma_key_end(b, at, path);
    match field_key(b, at, path) {
        Ok((_, _, from)) => {
            lemma_span_end(b, from, path);
        },
        Err(_) => {},
    }
}

/// The count of a footer from `at` on.
pub open spec fn footer_count(b: Seq<u8>, at: int, c: FooterCount, path: Seq<char>) -> Result<
    FooterCount,
    ImportErrorView,
>
    decreases b.len() - at,
{
    if at < 0 || at >= b.len() {
        Ok(c)
    } else {
        proof {
            lemma_footer_step_end(b, at, c, path);
        }
        match footer_step(b, at, c, path) {
            Err(e) => Err(e),
            Ok((d, end)) => footer_count(b, end, d, path),
        }
    }
}

/// The fault of a footer message.
pub open spec fn footer_failure(b: Seq<u8>, path: Seq<char>) -> Option<ImportErrorView> {
    match footer_count(b, 0, FooterCount { manifests: 0, budget: 0 }, path) {
        Err(e) => Some(e),
        Ok(c) => if c.manifests == 0 {
            Some(validation_failure("RRD footer contains no manifests"@, path))
        } else {
            None
        },
    }
}

proof fn lemma_manifest_budget_bound(b: Seq<u8>, at: int, f: ManifestFields, path: Seq<char>)
    requires
        0 <= at,
        f.encoded_bytes <= MAX_RRD_MANIFEST_ARROW_BYTES,
        f.decoded_bytes <= MAX_RRD_MANIFEST_ARROW_BYTES,
    ensures
        manifest_fields(b, at, f, path) matches Ok(g) ==> g.encoded_bytes
            <= MAX_RRD_MANIFEST_ARROW_BYTES && g.decoded_bytes <= MAX_RRD_MANIFEST_ARROW_BYTES,
    decreases b.len() - at,
{
    if at < b.len() {
        lemma_manifest_step_end(b, at, f, path);
        match manifest_step(b, at, f, path) {
            Ok((g, end)) => {
                lemma_manifest_budget_bound(b, end, g, path);
            },
            Err(_) => {},
        }
    }
}

/// Checks the manifests of a footer before any of them is decoded.
pub fn preflight_rrd_footer_wire(payload: &[u8], path: &str) -> (r: Result<(), ImportError>)
    ensures
        fault(r) == footer_failure(payload@, path@),
{
    let size: usize = payload.len();
    let ghost none = FooterCount { manifests: 0, budget: 0 };
    let mut at: usize = 0;
    let mut manifests: usize = 0;
    let mut budget: u64 = 0;
    while at < size
        invariant
            size == payload@.len(),
            at <= size,
            manifests <= MAX_RRD_MANIFESTS,
            budget <= MAX_RRD_FOOTER_DECODE_BUDGET_BYTES,
            none == (FooterCount { manifests: 0, budget: 0 }),
            footer_count(payload@, 0, none, path@) == footer_count(
                payload@,
                at as int,
                FooterCount { manifests, budget },
                path@,
            ),
        decreases size - at,
    {
        let (field, wire, from) = match read_proto_key(payload, at, path) {
            Ok(found) => found,
            Err(e) => {
                return Err(e);
            },
        };
        if field != 1 || wire != 2 {
            return Err(
                rrd_validation_error(
                    text::line("RRD footer contains unexpected protobuf field ").num(field).add(
                        " with wire type ",
                    ).num(wire as u64),
                    path,
                ),
            );
        }
        let (start, end) = match read_proto_bytes(payload, from, path) {
            Ok(found) => found,
            Err(e) => {
                return Err(e);
            },
        };
        if manifests + 1 > MAX_RRD_MANIFESTS {
            return Err(
                rrd_resource_error(
                    text::line("RRD footer has more than ").num(MAX_RRD_MANIFESTS as u64).add(
                        " manifests",
                    ),
                    path,
                ),
            );
        }
        let len: usize = end - start;
        if len > MAX_RRD_MANIFEST_BYTES {
            return Err(
                rrd_resource_error(
                    text::line("RRD manifest is ").num(len as u64).add(
                        " bytes; maximum is ",
                    ).num(MAX_RRD_MANIFEST_BYTES as u64),
                    path,
                ),
            );
        }
        let manifest = bytes::slice_between(payload, start, end);
        let (encoded, decoded) = match preflight_rrd_manifest_wire(manifest, path) {
            Ok(found) => found,
            Err(e) => {
                return Err(e);
            },
        };
        proof {
            lemma_manifest_budget_bound(manifest@, 0, empty_manifest(), path@);
        }
        let total: u64 = budget + encoded + decoded;
        if total > MAX_RRD_FOOTER_DECODE_BUDGET_BYTES {
            return Err(
                rrd_resource_error(
                    text::line("RRD footer Arrow payloads require more than ").num(
                        MAX_RRD_FOOTER_DECODE_BUDGET_BYTES,
                    ).add(" bytes while decoding"),
                    path,
                ),
            );
        }
        manifests = manifests + 1;
        budget = total;
        at = end;
    }
    if manifests == 0 {
        return Err(rrd_validation_error(text::line("RRD footer contains no manifests"), path));
    }
    Ok(())
}

proof fn lemma_footer_bounds(b: Seq<u8>, at: int, c: FooterCount, path: Seq<char>)
    requires
        0 <= at,
        c.manifests <= MAX_RRD_MANIFESTS,
        c.budget <= MAX_RRD_FOOTER_DECODE_BUDGET_BYTES,
    ensures
        footer_count(b, at, c, path) matches Ok(d) ==> d.manifests <= MAX_RRD_MANIFESTS && d.budget
            <= MAX_RRD_FOOTER_DECODE_BUDGET_BYTES,
    decreases b.len() - at,
{
    if at < b.len() {
        lemma_footer_step_end(b, at, c, path);
        match footer_step(b, at, c, path) {
            Ok((d, end)) => {
                lemma_footer_bounds(b, end, d, path);
            },
            Err(_) => {},
        }
    }
}

/// A footer that passes has few manifests, and their decoding stays within its budget.
pub proof fn law_accepted_footers_stay_within_the_decode_budget(b: Seq<u8>, path: Seq<char>)
    requires
        footer_failure(b, path) is None,
    ensures
        ({
            let c = footer_count(b, 0, FooterCount { manifests: 0, budget: 0 }, path)->Ok_0;
            0 < c.manifests <= MAX_RRD_MANIFESTS && c.budget <= MAX_RRD_FOOTER_DECODE_BUDGET_BYTES
        }),
{
    lemma_footer_bounds(b, 0, FooterCount { manifests: 0, budget: 0 }, path);
}

/// Where the last `footer_size` bytes of a file begin.
pub fn footer_position(file_size: u64, footer_size: u64, path: &str) -> (r: Result<
    u64,
    ImportError,
>)
    ensures
        import::outcome(r) == if file_size < footer_size {
            Err::<u64, ImportErrorView>(
                validation_failure("RRD is too small to contain a footer"@, path@),
            )
        } else {
            Ok((file_size - footer_size) as u64)
        },
{
    if file_size < footer_size {
        return Err(rrd_validation_error(text::line("RRD is too small to contain a footer"), path));
    }
    Ok(file_size - footer_size)
}

/// The fault of the entries of a stream footer, in a file whose header takes `header_size` bytes
/// and whose stream footer takes `footer_size` bytes.
pub open spec fn pointer_failure(
    entries: Seq<(u64, u64)>,
    file_size: u64,
    header_size: u64,
    footer_size: u64,
    path: Seq<char>,
) -> Option<ImportErrorView> {
    if file_size < footer_size {
        Some(validation_failure("RRD is too small to contain a footer"@, path))
    } else if entries.len() != 1 {
        Some(
            validation_failure(
                "RRD stream footer has "@ + text::decimal(entries.len())
                    + " entries; expected exactly one"@,
                path,
            ),
        )
    } else {
        let (start, len) = entries[0];
        if len == 0 || len > MAX_RRD_FOOTER_BYTES {
            Some(
                resource_failure(
                    "RRD footer payload is "@ + text::decimal(len as nat)
                        + " bytes; maximum is "@ + text::decimal(MAX_RRD_FOOTER_BYTES as nat),
                    path,
                ),
            )
        } else if start + len > u64::MAX {
            Some(validation_failure("RRD footer span overflow"@, path))
        } else if start < header_size || start + len > file_size - footer_size {
            Some(
                validation_failure(
                    "RRD footer payload span "@ + text::decimal(start as nat) + ".."@
                        + text::decimal((start + len) as nat) + " is outside the payload region"@,
                    path,
                ),
            )
        } else {
            None
        }
    }
}

/// Checks where the stream footer says that the footer payload lies.
pub fn validate_footer_pointer(
    entries: &Vec<(u64, u64)>,
    file_size: u64,
    header_size: u64,
    footer_size: u64,
    path: &str,
) -> (r: Result<(u64, u64), ImportError>)
    ensures
        import::outcome(r) == match pointer_failure(
            entries@,
            file_size,
            header_size,
            footer_size,
            path@,
        ) {
            Some(e) => Err::<(u64, u64), ImportErrorView>(e),
            None => Ok(entries@[0]),
        },
{
    if file_size < footer_size {
        return Err(rrd_validation_error(text::line("RRD is too small to contain a footer"), path));
    }
    let count: usize = entries.len();
    if count != 1 {
        return Err(
            rrd_validation_error(
                text::line("RRD stream footer has ").num(count as u64).add(
                    " entries; expected exactly one",
                ),
                path,
            ),
        );
    }
    let (start, len) = entries[0];
    if len == 0 || len > MAX_RRD_FOOTER_BYTES {
        return Err(
            rrd_resource_error(
                text::line("RRD footer payload is ").num(len).add(" bytes; maximum is ").num(
                    MAX_RRD_FOOTER_BYTES,
                ),
                path,
            ),
        );
    }
    let end: u64 = match start.checked_add(len) {
        Some(end) => end,
        None => {
            return Err(rrd_validation_error(text::line("RRD footer span overflow"), path));
        },
    };
    if start < header_size || end > file_size - footer_size {
        return Err(
            rrd_validation_error(
                text::line("RRD footer payload span ").num(start).add("..").num(end).add(
                    " is outside the payload region",
                ),
                path,
            ),
        );
    }
    Ok((start, len))
}

/// The bytes of a number as a varint: seven bits a byte, lowest first, with the highest bit set in
/// all bytes but the last.
pub open spec fn varint_bytes(n: nat) -> Seq<u8>
    decreases n,
{
    if n < 128 {
        seq![n as u8]
    } else {
        seq![(n % 128 + 128) as u8] + varint_bytes(n / 128)
    }
}

/// The largest number that the bytes of a varint from the `i`th on may encode.
pub open spec fn varint_ceiling(i: int) -> nat
    decreases i,
{
    if i <= 0 {
        u64::MAX as nat
    } else {
        varint_ceiling(i - 1) / 128
    }
}

proof fn lemma_varint_from(b: Seq<u8>, at: int, i: int, n: nat, path: Seq<char>)
    requires
        0 <= at,
        0 <= i <= 9,
        n <= varint_ceiling(i),
        at + i + varint_bytes(n).len() <= b.len(),
        b.subrange(at + i, at + i + varint_bytes(n).len()) == varint_bytes(n),
    ensures
        varint_from(b, at, i, path) == Ok::<(nat, int), ImportErrorView>(
            (n, at + i + varint_bytes(n).len()),
        ),
    decreases n,
{
    let all = varint_bytes(n);
    let part = b.subrange(at + i, at + i + all.len());
    assert(part[0] == b[at + i]);
    reveal_with_fuel(varint_ceiling, 11);
    assert(varint_ceiling(9) == 1);
    if n >= 128 {
        let rest = varint_bytes(n / 128);
        assert(all[0] == (n % 128 + 128) as u8);
        assert(b.subrange(at + i + 1, at + i + 1 + rest.len()) =~= rest) by {
            assert(part.skip(1) =~= b.subrange(at + i + 1, at + i + 1 + rest.len()));
            assert(all.skip(1) =~= rest);
        }
        assert(i < 9);
        assert(varint_ceiling(i + 1) == varint_ceiling(i) / 128);
        lemma_varint_from(b, at, i + 1, n / 128, path);
    }
}

/// A number that is written as a varint is read back, wherever it stands.
pub proof fn law_varints_read_back(b: Seq<u8>, at: int, n: u64, path: Seq<char>)
    requires
        0 <= at,
        at + varint_bytes(n as nat).len() <= b.len(),
        b.subrange(at, at + varint_bytes(n as nat).len()) == varint_bytes(n as nat),
    ensures
        varint(b, at, path) == Ok::<(nat, int), ImportErrorView>(
            (n as nat, at + varint_bytes(n as nat).len()),
        ),
{
    assert(varint_ceiling(0) == u64::MAX);
    lemma_varint_from(b, at, 0, n as nat, path);
}

/// The bytes of a field are those that follow its length, as many as it says.
pub proof fn law_fields_have_their_length(b: Seq<u8>, at: int, len: u64, path: Seq<char>)
    requires
        0 <= at,
        b.len() <= usize::MAX,
        at + varint_bytes(len as nat).len() <= b.len(),
        b.subrange(at, at + varint_bytes(len as nat).len()) == varint_bytes(len as nat),
    ensures
        ({
            let from = at + varint_bytes(len as nat).len();
            &&& field_span(b, at, path) is Ok <==> from + len <= b.len()
            &&& field_span(b, at, path) matches Ok(span) ==> span == (from, from + len)
        }),
{
    law_varints_read_back(b, at, len, path);
}

/// A dataframe is accepted exactly if it has a payload of at most the allowed size and, where it is
/// compressed, says how large it becomes, within the limits; it needs as much room as it says.
pub proof fn law_dataframes_say_their_size(f: DataframeFields, path: Seq<char>)
    ensures
        dataframe_sizes(f, path) is Ok <==> {
            &&& f.has_payload && 0 < f.payload_size <= 67_108_864
            &&& f.uncompressed_size <= 67_108_864
            &&& f.compression <= 2
            &&& f.compression == 2 ==> f.uncompressed_size > 0 && (f.uncompressed_size
                <= f.payload_size * 1_000 || f.payload_size
                * 1_000 > u64::MAX)
        },
        dataframe_sizes(f, path) matches Ok((encoded, decoded)) ==> encoded == f.payload_size
            && decoded == if f.compression == 2 {
            f.uncompressed_size
        } else {
            f.payload_size
        },
{
}

/// The footer of a file is found exactly if the file has one entry for it that is neither empty
/// nor too long and lies between the header and the stream footer.
pub proof fn law_footers_lie_between_header_and_end(
    entries: Seq<(u64, u64)>,
    file_size: u64,
    header_size: u64,
    footer_size: u64,
    path: Seq<char>,
)
    ensures
        pointer_failure(entries, file_size, header_size, footer_size, path) is None <==> {
            &&& entries.len() == 1
            &&& 0 < entries[0].1 <= 67_108_864
            &&& header_size <= entries[0].0
            &&& entries[0].0 + entries[0].1 + footer_size <= file_size
        },
{
}

/// A field of a manifest is accepted exactly if it is a store identifier that is short enough, a
/// sound schema, a digest of 32 bytes or a dataframe; it then counts as read, and only a dataframe
/// changes what the manifest needs.
pub proof fn law_manifest_fields_are_checked(
    f: ManifestFields,
    field: nat,
    content: Seq<u8>,
    path: Seq<char>,
)
    requires
        1 <= field <= 4,
    ensures
        manifest_content(f, field, content, path) is Ok <==> {
            &&& field == 1 ==> content.len() <= 16_384
            &&& field == 2 ==> schema_failure(content, path) is None
            &&& field == 3 ==> content.len() == 32
            &&& field == 4 ==> dataframe_budget(content, path) is Ok
        },
        manifest_content(f, field, content, path) matches Ok(g) ==> {
            &&& g.has_store == (f.has_store || field == 1)
            &&& g.has_schema == (f.has_schema || field == 2)
            &&& g.has_digest == (f.has_digest || field == 3)
            &&& g.has_data == (f.has_data || field == 4)
            &&& field == 4 ==> dataframe_budget(content, path) == Ok::<
                (u64, u64),
                ImportErrorView,
            >((g.encoded_bytes, g.decoded_bytes))
            &&& field != 4 ==> g.encoded_bytes == f.encoded_bytes && g.decoded_bytes
                == f.decoded_bytes
        },
{
}

} // verus!
