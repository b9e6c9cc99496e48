use vstd::prelude::*;

verus! {

use crate::strutil::str_eq;

/// The fixed allow-list of development origins that may call the API from
/// another origin.
pub open spec fn allowed_origin(o: Seq<char>) -> bool {
    ||| o == "http://localhost:8080"@
    ||| o == "http://127.0.0.1:8080"@
    ||| o == "http://localhost:8000"@
    ||| o == "http://0.0.0.0:8000"@
    ||| o == "ws://localhost:8080"@
}

/// Whether a request origin is on the fixed allow-list.
pub fn origin_allowed(origin: &str) -> (r: bool)
    ensures
        r == allowed_origin(origin@),
{
    str_eq(origin, "http://localhost:8080") || str_eq(origin, "http://127.0.0.1:8080")
        || str_eq(origin, "http://localhost:8000") || str_eq(origin, "http://0.0.0.0:8000")
        || str_eq(origin, "ws://localhost:8080")
}

/// The allow-list itself, for handing to the server: it holds every origin
/// that `allowed_origin` admits and nothing else.
pub fn allowed_origins() -> (v: Vec<String>)
    ensures
        v@.len() == 5,
        v@[0]@ == "http://localhost:8080"@,
        v@[1]@ == "http://127.0.0.1:8080"@,
        v@[2]@ == "http://localhost:8000"@,
        v@[3]@ == "http://0.0.0.0:8000"@,
        v@[4]@ == "ws://localhost:8080"@,
        forall|i: int| 0 <= i < v@.len() ==> allowed_origin(#[trigger] v@[i]@),
{
    let mut v: Vec<String> = Vec::new();
    v.push("http://localhost:8080".to_owned());
    v.push("http://127.0.0.1:8080".to_owned());
    v.push("http://localhost:8000".to_owned());
    v.push("http://0.0.0.0:8000".to_owned());
    v.push("ws://localhost:8080".to_owned());
    v
}

/// The origin echoed back in the cross-origin allow header: exactly the
/// allow-listed origins are echoed, every other origin gets no header.
pub fn cors_allow_origin(origin: &str) -> (r: Option<String>)
    ensures
        r is Some <==> allowed_origin(origin@),
        r matches Some(v) ==> v@ == origin@,
{
    if origin_allowed(origin) {
        Some(origin.to_owned())
    } else {
        None
    }
}

} // verus!
