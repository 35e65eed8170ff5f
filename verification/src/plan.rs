//! The one-shot decision at the head of every invocation.
//!
//! Everything the tool later does on disk is fixed here, from plain values
//! only: the validated destination, the parsed mode, and the resolved
//! ownership.  Errors are reported in a fixed order: destination first,
//! then mode, then user, then group, all before any filesystem mutation.

use vstd::prelude::*;

use crate::errors::WriteError;
use crate::modes::{is_valid_mode, octal_digits, octal_value, parse_mode};
use crate::paths::{is_absolute, is_canonical, validate, CanonicalPath};
use crate::perms::{Ownership, PendingPermissions};

verus! {

/// The outcome of resolving an optional user or group name to an id.
#[derive(Clone, Copy, Debug, PartialEq, Eq)]
pub enum NameLookup {
    /// No name was given on the command line.
    NotRequested,
    /// A name was given but the system knows no such user or group.
    Unknown,
    /// A name was given and resolved to this id.
    Found(u32),
}

/// Everything the command line supplies, reduced to plain values: the raw
/// destination, the raw mode string, the two name-lookup outcomes, and the
/// directory-creation flag.
pub struct Request {
    pub destination: String,
    pub mode: Option<String>,
    pub user: NameLookup,
    pub group: NameLookup,
    pub makedirs: bool,
}

/// The checked inputs every later step works from.
#[derive(Debug)]
pub struct Plan {
    pub target: CanonicalPath,
    pub pending: PendingPermissions,
    pub makedirs: bool,
}

impl Plan {
    /// The ownership applied to directories created by the walk: the same
    /// ids that would be applied to a newly created destination file.
    pub fn dir_ownership(&self) -> (r: Ownership)
        ensures
            r.uid == self.pending.uid,
            r.gid == self.pending.gid,
    {
        Ownership { uid: self.pending.uid, gid: self.pending.gid }
    }
}

/// The spec-level mode field of a successful plan.
pub open spec fn planned_mode(mode: Option<String>) -> Option<u32> {
    match mode {
        Some(m) => Some(octal_value(octal_digits(m@)) as u32),
        None => None,
    }
}

/// The spec-level id field of a successful plan.
pub open spec fn planned_id(lookup: NameLookup) -> Option<u32> {
    match lookup {
        NameLookup::NotRequested => None,
        NameLookup::Unknown => None,  // a plan is never produced in this case
        NameLookup::Found(id) => Some(id),
    }
}

/// Whether the mode argument, if any, is valid octal.
pub open spec fn mode_arg_ok(mode: Option<String>) -> bool {
    match mode {
        Some(m) => is_valid_mode(m@),
        None => true,
    }
}

/// Checks every input and fixes what will be done: succeeds exactly when
/// the destination is absolute and canonical, the mode (if given) is valid
/// octal, and every requested name resolved; the error reported is the
/// first failure in that order.
pub fn plan(req: Request) -> (r: Result<Plan, WriteError>)
    ensures
        r is Ok <==> {
            &&& is_canonical(req.destination@)
            &&& mode_arg_ok(req.mode)
            &&& req.user != NameLookup::Unknown
            &&& req.group != NameLookup::Unknown
        },
        match r {
            Ok(p) => {
                &&& p.target@ == req.destination@
                &&& p.target.wf()
                &&& p.pending.mode == planned_mode(req.mode)
                &&& p.pending.uid == planned_id(req.user)
                &&& p.pending.gid == planned_id(req.group)
                &&& p.makedirs == req.makedirs
            },
            Err(e) => {
                &&& (e == WriteError::NotAbsolute <==> !is_absolute(req.destination@))
                &&& (e == WriteError::NotCanonical <==> is_absolute(req.destination@)
                    && !is_canonical(req.destination@))
                &&& (e == WriteError::InvalidMode <==> is_canonical(req.destination@)
                    && !mode_arg_ok(req.mode))
                &&& (e == WriteError::UnknownUser <==> is_canonical(req.destination@)
                    && mode_arg_ok(req.mode) && req.user == NameLookup::Unknown)
                &&& (e == WriteError::UnknownGroup <==> is_canonical(req.destination@)
                    && mode_arg_ok(req.mode) && req.user != NameLookup::Unknown
                    && req.group == NameLookup::Unknown)
            },
        },
{
    let target = match validate(req.destination.as_str()) {
        Ok(t) => t,
        Err(e) => {
            return Err(e);
        },
    };
    let mode: Option<u32> = match req.mode {
        Some(m) => {
            match parse_mode(m.as_str()) {
                Ok(v) => Some(v),
                Err(e) => {
                    return Err(e);
                },
            }
        },
        None => None,
    };
    let uid: Option<u32> = match req.user {
        NameLookup::NotRequested => None,
        NameLookup::Unknown => {
            return Err(WriteError::UnknownUser);
        },
        NameLookup::Found(id) => Some(id),
    };
    let gid: Option<u32> = match req.group {
        NameLookup::NotRequested => None,
        NameLookup::Unknown => {
            return Err(WriteError::UnknownGroup);
        },
        NameLookup::Found(id) => Some(id),
    };
    Ok(Plan {
        target,
        pending: PendingPermissions { uid, gid, mode },
        makedirs: req.makedirs,
    })
}

} // verus!
