//! The rules a stored import profile keeps: names are unique, and an update
//! or a delete must find the profile it names.

use vstd::prelude::*;
use vstd::string::*;

use crate::error::{BcError, BcResult};
use crate::batch::{id_value, invalid_id_message, parse_id_or_bad, parse_ts, timestamp_from_text};
use crate::metadata::Timestamp;
use crate::model::{ProfileId, decimal_text, u64_text};

verus! {

/// The message refusing a profile name already in use.
pub open spec fn name_taken(name: Seq<char>) -> Seq<char> {
    "import profile '"@ + name + "' already exists"@
}

/// The message naming a profile that is not on record.
pub open spec fn profile_not_found(id: ProfileId) -> Seq<char> {
    "import profile "@ + decimal_text(id.0 as nat)
}

/// Refuses `name`.
fn taken(name: &str) -> (r: BcError)
    ensures
        r matches BcError::InvalidInput(m) && m@ == name_taken(name@),
{
    let mut m = String::from_str("import profile '");
    m.append(name);
    m.append("' already exists");
    BcError::InvalidInput(m)
}

/// Decides whether a profile may be created under `name`, from looking the
/// name up: a profile found under it refuses the name, none found lets it
/// through, and any other failure of the lookup is passed on.
pub fn check_new_name(name: &str, existing: BcResult<ProfileId>) -> (r: BcResult<()>)
    ensures
        match existing {
            Ok(_) => r matches Err(BcError::InvalidInput(m)) && m@ == name_taken(name@),
            Err(BcError::NotFound(_)) => r is Ok,
            Err(e) => r == Err::<(), BcError>(e),
        },
{
    match existing {
        Ok(_) => Err(taken(name)),
        Err(BcError::NotFound(_)) => Ok(()),
        Err(e) => Err(e),
    }
}

/// Decides whether profile `id` may be renamed to `name`, from looking the
/// name up: another profile found under it refuses the name; the profile
/// itself, or none, lets it through; any other failure is passed on.
pub fn check_renamed(id: ProfileId, name: &str, existing: BcResult<ProfileId>) -> (r: BcResult<()>)
    ensures
        match existing {
            Ok(other) => if other != id {
                r matches Err(BcError::InvalidInput(m)) && m@ == name_taken(name@)
            } else {
                r is Ok
            },
            Err(BcError::NotFound(_)) => r is Ok,
            Err(e) => r == Err::<(), BcError>(e),
        },
{
    match existing {
        Ok(other) => {
            if other != id {
                Err(taken(name))
            } else {
                Ok(())
            }
        },
        Err(BcError::NotFound(_)) => Ok(()),
        Err(e) => Err(e),
    }
}

/// Decides the outcome of an update or delete of profile `id` from the rows
/// it changed: none means no such profile.
pub fn check_changed(id: ProfileId, rows_affected: u64) -> (r: BcResult<()>)
    ensures
        rows_affected == 0 ==> (r matches Err(BcError::NotFound(m)) && m@ == profile_not_found(id)),
        rows_affected != 0 ==> r is Ok,
{
    if rows_affected == 0 {
        let mut m = String::from_str("import profile ");
        let t = u64_text(id.0);
        m.append(t.as_str());
        return Err(BcError::NotFound(m));
    }
    Ok(())
}


/// Reads a stored profile's id and creation instant, the id first: a
/// malformed one is bad data, the instant's named with the parser's message.
pub fn profile_fields(raw_id: &String, raw_created_at: &String) -> (r: BcResult<(ProfileId, Timestamp)>)
    ensures
        match id_value(raw_id@) {
            None => r matches Err(BcError::BadData(m)) && m@ == invalid_id_message(raw_id@),
            Some(id) => match timestamp_from_text(raw_created_at@) {
                Err(e) => r matches Err(BcError::BadData(m)) && m@ == e,
                Ok((s, n)) => r == Ok::<(ProfileId, Timestamp), BcError>((ProfileId(id), Timestamp { seconds: s, nanos: n })),
            },
        },
{
    let id = parse_id_or_bad(raw_id)?;
    let created_at = parse_ts(raw_created_at)?;
    Ok((ProfileId(id), created_at))
}

} // verus!
