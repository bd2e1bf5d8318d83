use vstd::prelude::*;
use vstd::string::StringSliceAdditionalSpecFns;
use vstd::utf8::{decode_utf8, encode_utf8, is_char_boundary};
use crate::history::boundary_at_or_before;
use crate::text::{
    decimal, hex_char, hex_digit, push_char, push_decimal, push_signed, push_str, signed_decimal,
};
use crate::json::{
    get, get_i64, get_str, get_u64, json_get, json_get_i64, json_get_str, json_get_u64, json_text,
    lemma_array_view, write_json, Json, JsonV,
};

verus! {

broadcast use vstd::utf8::encode_utf8_valid_utf8, vstd::utf8::encode_utf8_decode_utf8;

/// Printable for a preview: ASCII graphic characters and ASCII white space.
pub open spec fn is_preview_printable(c: char) -> bool {
    let u = c as u32;
    (0x21 <= u && u <= 0x7e) || u == 0x20 || u == 0x09 || u == 0x0a || u == 0x0c || u == 0x0d
}

pub open spec fn count_unprintable(s: Seq<char>) -> nat
    decreases s.len(),
{
    if s.len() == 0 {
        0
    } else {
        count_unprintable(s.drop_last()) + if is_preview_printable(s.last()) {
            0nat
        } else {
            1nat
        }
    }
}

/// More than 30% of the first 100 characters are not printable.
pub open spec fn looks_binary(s: Seq<char>) -> bool {
    let sample = if s.len() <= 100 {
        s
    } else {
        s.take(100)
    };
    sample.len() > 0 && count_unprintable(sample) * 100 / sample.len() > 30
}

/// Two lowercase hex digits of a byte.
pub open spec fn hex_byte(b: u8) -> Seq<char> {
    seq![hex_digit((b / 16) as u32), hex_digit((b % 16) as u32)]
}

/// The bytes in lowercase hex, separated by single spaces.
pub open spec fn hex_bytes(b: Seq<u8>) -> Seq<char>
    decreases b.len(),
{
    if b.len() == 0 {
        Seq::empty()
    } else if b.len() == 1 {
        hex_byte(b[0])
    } else {
        hex_bytes(b.drop_last()) + seq![' '] + hex_byte(b.last())
    }
}

/// The preview of a response body shown in error messages: a hex dump of
/// the first 50 bytes when the text looks binary, else the text cut to at
/// most 200 bytes (at a character boundary) followed by `...`, else the text.
pub open spec fn preview_of(s: Seq<char>) -> Seq<char> {
    let b = encode_utf8(s);
    if looks_binary(s) {
        "[binary data] "@ + hex_bytes(
            if b.len() <= 50 {
                b
            } else {
                b.take(50)
            },
        )
    } else if b.len() > 200 {
        decode_utf8(b.subrange(0, boundary_at_or_before(b, 200))) + "..."@
    } else {
        s
    }
}

fn count_sample_unprintable(body: &str) -> (res: (usize, usize))
    ensures
        res.0 == if body@.len() <= 100 {
            body@.len()
        } else {
            100
        },
        res.1 == count_unprintable(body@.take(res.0 as int)),
        res.1 <= res.0 <= 100,
{
    let mut size: usize = 0;
    let mut count: usize = 0;
    for c in it: body.chars()
        invariant
            it.seq() == body@,
            size == if it.index() <= 100 {
                it.index()
            } else {
                100
            },
            count == count_unprintable(body@.take(size as int)),
            count <= size,
    {
        if size < 100 {
            assert(body@.take(size + 1).drop_last() =~= body@.take(size as int));
            let u = c as u32;
            let printable = (0x21 <= u && u <= 0x7e) || u == 0x20 || u == 0x09 || u == 0x0a
                || u == 0x0c || u == 0x0d;
            if !printable {
                count = count + 1;
            }
            size = size + 1;
        }
    }
    (size, count)
}

/// The preview of a text body over 200 bytes is a prefix of the body of at
/// most 200 bytes followed by `...`; a shorter text body is shown whole.
pub proof fn lemma_text_preview_is_prefix(s: Seq<char>)
    requires
        !looks_binary(s),
    ensures
        encode_utf8(s).len() <= 200 ==> preview_of(s) == s,
        encode_utf8(s).len() > 200 ==> exists|p: Seq<char>|
            #![trigger encode_utf8(p)]
            s.take(p.len() as int) == p && encode_utf8(p).len() <= 200 && preview_of(s) == p
                + "..."@,
{
    let b = encode_utf8(s);
    if b.len() > 200 {
        broadcast use vstd::utf8::decode_utf8_split, vstd::utf8::valid_utf8_split,
            vstd::utf8::decode_utf8_encode_utf8, vstd::utf8::is_char_boundary_start_end_of_seq;

        let h = boundary_at_or_before(b, 200);
        crate::history::lemma_boundary_before_bounds(b, 200);
        crate::history::lemma_boundary_before_is_boundary(b, 200);
        assert(is_char_boundary(b, 0));
        assert(is_char_boundary(b, h));
        let p = decode_utf8(b.subrange(0, h));
        vstd::utf8::decode_utf8_split(b, h);
        vstd::utf8::valid_utf8_split(b, h);
        assert(encode_utf8(p) == b.subrange(0, h));
        assert(s =~= p + decode_utf8(b.subrange(h, b.len() as int)));
        assert(s.take(p.len() as int) =~= p);
    }
}

/// The preview of a response body, as `preview_of` describes.
pub fn body_preview(body: &str) -> (res: String)
    ensures
        res@ == preview_of(body@),
{
    let ghost b = body.spec_bytes();
    let bytes = body.as_bytes();
    let (size, count) = count_sample_unprintable(body);
    proof {
        if body@.len() <= 100 {
            assert(body@.take(size as int) =~= body@);
        }
    }
    if size > 0 && count * 100 / size > 30 {
        let mut out = String::new();
        push_str(&mut out, "[binary data] ");
        let n: usize = if bytes.len() <= 50 {
            bytes.len()
        } else {
            50
        };
        let mut i: usize = 0;
        while i < n
            invariant
                i <= n,
                n <= bytes@.len(),
                bytes@ == b,
                out@ == "[binary data] "@ + hex_bytes(b.take(i as int)),
            decreases n - i,
        {
            assert(b.take(i + 1).drop_last() =~= b.take(i as int));
            if i > 0 {
                push_char(&mut out, ' ');
            }
            let byte = bytes[i];
            push_char(&mut out, hex_char((byte / 16) as u32));
            push_char(&mut out, hex_char((byte % 16) as u32));
            i = i + 1;
        }
        proof {
            if b.len() <= 50 {
                assert(b.take(n as int) =~= b);
            }
        }
        out
    } else if bytes.len() > 200 {
        let mut end: usize = 200;
        while end > 0 && !body.is_char_boundary(end)
            invariant
                end <= 200,
                b == body.spec_bytes(),
                boundary_at_or_before(b, end as int) == boundary_at_or_before(b, 200),
            decreases end,
        {
            end = end - 1;
        }
        proof {
            vstd::utf8::is_char_boundary_start_end_of_seq(b);
        }
        let (head, _) = body.split_at(end);
        let mut out = String::new();
        push_str(&mut out, head);
        push_str(&mut out, "...");
        proof {
            assert(encode_utf8(head@) == b.subrange(0, end as int));
        }
        out
    } else {
        body.to_owned()
    }
}


/// Why a response body could not be used as JSON.
pub enum ResponseError {
    /// The body was empty.
    EmptyBody { label: String },
    /// The body was not JSON; `cause` is the parser's complaint.
    NonJson { label: String, preview: String, cause: String },
}

/// The full message of a response error (context first, then cause).
pub open spec fn response_error_text(e: ResponseError) -> Seq<char> {
    match e {
        ResponseError::EmptyBody { label } => "Empty response body ("@ + label@
            + "). The API endpoint returned no data."@,
        ResponseError::NonJson { label, preview, cause } => "Non-JSON response ("@ + label@
            + "): "@ + preview@ + ": "@ + cause@,
    }
}

impl ResponseError {
    /// The full message, context first, then cause.
    pub fn message(&self) -> (res: String)
        ensures
            res@ == response_error_text(*self),
    {
        let mut out = String::new();
        match self {
            ResponseError::EmptyBody { label } => {
                push_str(&mut out, "Empty response body (");
                push_str(&mut out, label.as_str());
                push_str(&mut out, "). The API endpoint returned no data.");
            },
            ResponseError::NonJson { label, preview, cause } => {
                push_str(&mut out, "Non-JSON response (");
                push_str(&mut out, label.as_str());
                push_str(&mut out, "): ");
                push_str(&mut out, preview.as_str());
                push_str(&mut out, ": ");
                push_str(&mut out, cause.as_str());
            },
        }
        out
    }
}

/// Takes a response body as JSON. `label` describes the response (its
/// status, and maybe its content type); `parsed` is what the JSON parser made
/// of `body`: the document, or the parser's complaint.
pub fn body_to_json(label: &str, body: &str, parsed: Result<Json, String>) -> (res: Result<
    Json,
    ResponseError,
>)
    ensures
        body@.len() == 0 ==> (res matches Err(ResponseError::EmptyBody { label: l }) && l@
            == label@),
        body@.len() > 0 ==> match parsed {
            Ok(j) => res == Ok::<Json, ResponseError>(j),
            Err(c) => res matches Err(ResponseError::NonJson { label: l, preview: p, cause: k })
                && l@ == label@ && p@ == preview_of(body@) && k@ == c@,
        },
{
    if body.is_empty() {
        return Err(ResponseError::EmptyBody { label: label.to_owned() });
    }
    match parsed {
        Ok(j) => Ok(j),
        Err(cause) => Err(
            ResponseError::NonJson {
                label: label.to_owned(),
                preview: body_preview(body),
                cause,
            },
        ),
    }
}

/// Takes a response body with the given status as JSON (see `body_to_json`;
/// the label reads `status: <status>`).
pub fn parse_response_body(status: u16, body: &str, parsed: Result<Json, String>) -> (res: Result<
    Json,
    ResponseError,
>)
    ensures
        body@.len() == 0 ==> (res matches Err(ResponseError::EmptyBody { label: l }) && l@
            == "status: "@ + decimal(status as nat)),
        body@.len() > 0 ==> match parsed {
            Ok(j) => res == Ok::<Json, ResponseError>(j),
            Err(c) => res matches Err(ResponseError::NonJson { label: l, preview: p, cause: k })
                && l@ == "status: "@ + decimal(status as nat) && p@ == preview_of(body@) && k@
                == c@,
        },
{
    let mut label = String::new();
    push_str(&mut label, "status: ");
    push_decimal(&mut label, status as u64);
    body_to_json(label.as_str(), body, parsed)
}

/// `data["error"]` when it is an object.
pub open spec fn error_object(data: JsonV) -> Option<JsonV> {
    match json_get(data, "error"@) {
        Some(JsonV::Object(m)) => Some(JsonV::Object(m)),
        _ => None,
    }
}

/// `data["errors"][0]` when it is an object.
pub open spec fn first_errors_object(data: JsonV) -> Option<JsonV> {
    match json_get(data, "errors"@) {
        Some(JsonV::Array(v)) => if v.len() > 0 {
            match v[0] {
                JsonV::Object(m) => Some(JsonV::Object(m)),
                _ => None,
            }
        } else {
            None
        },
        _ => None,
    }
}

/// `data[0]["error"]` when it is an object.
pub open spec fn first_item_error_object(data: JsonV) -> Option<JsonV> {
    match data {
        JsonV::Array(v) => if v.len() > 0 {
            error_object(v[0])
        } else {
            None
        },
        _ => None,
    }
}

pub open spec fn invalid_data_text(data: JsonV, status: u16) -> Seq<char> {
    "Invalid response data: "@ + json_text(data) + " (status: "@ + decimal(status as nat) + ")"@
}

/// The error that a response with the given status and data reports:
/// none for a 2xx status; otherwise the first error shape that matches, in
/// the order the providers are tried, or the whole data.
pub open spec fn error_report(data: JsonV, status: u16) -> Option<Seq<char>> {
    if 200 <= status < 300 {
        None
    } else {
        Some(
            match error_object(data) {
                Some(e) => match (json_get_str(e, "type"@), json_get_str(e, "message"@)) {
                    (Some(t), Some(m)) => m + " (type: "@ + t + ")"@,
                    _ => match (json_get_str(e, "code"@), json_get_str(e, "message"@)) {
                        (Some(c), Some(m)) => m + " (code: "@ + c + ")"@,
                        _ => invalid_data_text(data, status),
                    },
                },
                None => match first_errors_object(data) {
                    Some(e) => match (json_get_u64(e, "code"@), json_get_str(e, "message"@)) {
                        (Some(c), Some(m)) => m + " (status: "@ + decimal(c as nat) + ")"@,
                        _ => invalid_data_text(data, status),
                    },
                    None => match first_item_error_object(data) {
                        Some(e) => match (json_get_str(e, "status"@), json_get_str(e, "message"@)) {
                            (Some(st), Some(m)) => m + " (status: "@ + st + ")"@,
                            _ => invalid_data_text(data, status),
                        },
                        None => match (json_get_str(data, "detail"@), json_get_i64(data, "status"@)) {
                            (Some(d), Some(st)) => d + " (status: "@ + signed_decimal(st as int)
                                + ")"@,
                            _ => match json_get_str(data, "error"@) {
                                Some(e) => e,
                                None => match json_get_str(data, "message"@) {
                                    Some(m) => m,
                                    None => invalid_data_text(data, status),
                                },
                            },
                        },
                    },
                },
            },
        )
    }
}

fn invalid_data(data: &Json, status: u16) -> (res: String)
    ensures
        res@ == invalid_data_text(data@, status),
{
    let mut out = String::new();
    push_str(&mut out, "Invalid response data: ");
    write_json(data, &mut out);
    push_str(&mut out, " (status: ");
    push_decimal(&mut out, status as u64);
    push_str(&mut out, ")");
    out
}

fn with_suffix(message: &str, tag: &str, value: &str) -> (res: String)
    ensures
        res@ == message@ + tag@ + value@ + ")"@,
{
    let mut out = String::new();
    push_str(&mut out, message);
    push_str(&mut out, tag);
    push_str(&mut out, value);
    push_str(&mut out, ")");
    out
}

fn get_error_object<'a>(data: &'a Json) -> (r: Option<&'a Json>)
    ensures
        match r {
            Some(e) => error_object(data@) == Some(e@),
            None => error_object(data@) is None,
        },
{
    match get(data, "error") {
        Some(e) => match e {
            Json::Object(_) => Some(e),
            _ => None,
        },
        None => None,
    }
}


/// A reply is an error exactly when its status is not a success (2xx):
/// every other status is reported, whatever the body holds.
pub proof fn lemma_error_iff_failure_status(data: JsonV, status: u16)
    ensures
        error_report(data, status) is None <==> (200 <= status < 300),
{
}

/// Turns an unsuccessful response into its error message, as
/// `error_report` describes; a 2xx status gives `Ok`.
pub fn catch_error(data: &Json, status: u16) -> (res: Result<(), String>)
    ensures
        match error_report(data@, status) {
            None => res is Ok,
            Some(m) => res matches Err(e) && e@ == m,
        },
{
    if 200 <= status && status < 300 {
        return Ok(());
    }
    if let Some(e) = get_error_object(data) {
        if let (Some(t), Some(m)) = (get_str(e, "type"), get_str(e, "message")) {
            return Err(with_suffix(m, " (type: ", t));
        } else if let (Some(c), Some(m)) = (get_str(e, "code"), get_str(e, "message")) {
            return Err(with_suffix(m, " (code: ", c));
        }
        return Err(invalid_data(data, status));
    }
    let errors0: Option<&Json> = match get(data, "errors") {
        Some(Json::Array(v)) => if v.len() > 0 {
            proof {
                lemma_array_view(*v);
            }
            match &v[0] {
                Json::Object(_) => Some(&v[0]),
                _ => None,
            }
        } else {
            None
        },
        _ => None,
    };
    assert(match errors0 {
        Some(e) => first_errors_object(data@) == Some(e@),
        None => first_errors_object(data@) is None,
    });
    if let Some(e) = errors0 {
        if let (Some(c), Some(m)) = (get_u64(e, "code"), get_str(e, "message")) {
            let mut code = String::new();
            push_decimal(&mut code, c);
            return Err(with_suffix(m, " (status: ", code.as_str()));
        }
        return Err(invalid_data(data, status));
    }
    let item_error: Option<&Json> = match data {
        Json::Array(v) => if v.len() > 0 {
            proof {
                lemma_array_view(*v);
            }
            get_error_object(&v[0])
        } else {
            None
        },
        _ => None,
    };
    assert(match item_error {
        Some(e) => first_item_error_object(data@) == Some(e@),
        None => first_item_error_object(data@) is None,
    });
    if let Some(e) = item_error {
        if let (Some(st), Some(m)) = (get_str(e, "status"), get_str(e, "message")) {
            return Err(with_suffix(m, " (status: ", st));
        }
        return Err(invalid_data(data, status));
    }
    if let (Some(d), Some(st)) = (get_str(data, "detail"), get_i64(data, "status")) {
        let mut code = String::new();
        push_signed(&mut code, st);
        return Err(with_suffix(d, " (status: ", code.as_str()));
    }
    if let Some(e) = get_str(data, "error") {
        return Err(e.to_owned());
    }
    if let Some(m) = get_str(data, "message") {
        return Err(m.to_owned());
    }
    Err(invalid_data(data, status))
}

/// A string member of an object's members.
pub fn json_str_from_map<'a>(map: &'a Vec<(String, Json)>, field_name: &str) -> (r: Option<
    &'a str,
>)
    ensures
        match r {
            Some(s) => json_get_str(Json::Object(*map)@, field_name@) == Some(s@),
            None => json_get_str(Json::Object(*map)@, field_name@) is None,
        },
{
    match crate::json::get_member(map, field_name) {
        Some(v) => crate::json::as_str(v),
        None => None,
    }
}

} // verus!
