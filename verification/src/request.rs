//! Requests to pass a device through.

use crate::outside::{alphanumeric, is_alphanumeric};
use crate::vmm_config::VfioDeviceConfig;
use vstd::prelude::*;

verus! {

/// The answer to a request that is refused.
#[derive(Debug, Clone, Copy, PartialEq, Eq)]
pub enum StatusCode {
    /// The request is wrong in itself.
    BadRequest,
}

/// Why a request is refused. `E` is what is wrong with a body that cannot be read.
#[derive(Debug)]
pub enum RequestError<E> {
    /// The identifier is missing or empty.
    EmptyID,
    /// The identifier holds a character that it may not hold.
    InvalidID,
    /// The body is not a configuration.
    SerdeJson(E),
    /// Another reason, in words.
    Generic(StatusCode, String),
}

/// What the virtual machine monitor is asked to do.
#[derive(Debug, PartialEq, Eq)]
pub enum VmmAction {
    /// Pass a device through.
    InsertVfioDevice(VfioDeviceConfig),
}

/// Whether every character may stand in an identifier.
pub open spec fn only_id_chars(id: Seq<char>) -> bool {
    forall|i: int| 0 <= i < id.len() ==> (#[trigger] id[i] == '-' || alphanumeric(id[i]))
}

/// Checks an identifier: it must not be empty, and may hold alphanumeric characters and hyphens.
pub fn checked_id<E>(id: &str) -> (r: Result<&str, RequestError<E>>)
    ensures
        r == (if id@.len() == 0 {
            Err(RequestError::<E>::EmptyID)
        } else if !only_id_chars(id@) {
            Err(RequestError::<E>::InvalidID)
        } else {
            Ok(id)
        }),
{
    if id.is_empty() {
        return Err(RequestError::EmptyID);
    }
    let n: usize = id.unicode_len();
    let mut i: usize = 0;
    while i < n
        invariant
            n == id@.len(),
            n > 0,
            i <= n,
            forall|j: int| 0 <= j < i ==> (#[trigger] id@[j] == '-' || alphanumeric(id@[j])),
        decreases n - i,
    {
        let c = id.get_char(i);
        if c != '-' && !is_alphanumeric(c) {
            assert(!only_id_chars(id@)) by {
                assert(id@[i as int] == c);
            }
            return Err(RequestError::InvalidID);
        }
        i = i + 1;
    }
    Ok(id)
}

/// What is said of a request whose path and body name different devices.
pub open spec fn mismatch_text() -> Seq<char> {
    "The id from the path does not match the id from the body!"@
}

/// Parses a request to pass a device through: `body` is the configuration in it, or what is wrong
/// with it, and `id_from_path` the identifier in its path. The two identifiers must be the same.
pub fn parse_put_vfio<E>(
    body: Result<VfioDeviceConfig, E>,
    id_from_path: Option<&str>,
) -> (r: Result<VmmAction, RequestError<E>>)
    ensures
        match id_from_path {
            None => r == Err::<VmmAction, RequestError<E>>(RequestError::EmptyID),
            Some(id) => if id@.len() == 0 {
                r == Err::<VmmAction, RequestError<E>>(RequestError::EmptyID)
            } else if !only_id_chars(id@) {
                r == Err::<VmmAction, RequestError<E>>(RequestError::InvalidID)
            } else {
                match body {
                    Err(e) => r == Err::<VmmAction, RequestError<E>>(RequestError::SerdeJson(e)),
                    Ok(config) => if id@ != config.id@ {
                        r matches Err(RequestError::Generic(status, text)) && status
                            == StatusCode::BadRequest && text@ == mismatch_text()
                    } else {
                        r == Ok::<VmmAction, RequestError<E>>(VmmAction::InsertVfioDevice(config))
                    },
                }
            },
        },
{
    let id = match id_from_path {
        Some(id) => match checked_id(id) {
            Ok(id) => id,
            Err(e) => return Err(e),
        },
        None => return Err(RequestError::EmptyID),
    };
    let config = match body {
        Ok(config) => config,
        Err(e) => return Err(RequestError::SerdeJson(e)),
    };
    if id.to_owned() != config.id {
        return Err(
            RequestError::Generic(
                StatusCode::BadRequest,
                "The id from the path does not match the id from the body!".to_owned(),
            ),
        );
    }
    Ok(VmmAction::InsertVfioDevice(config))
}

} // verus!
