//! Request paths for the host API, rendered as bytes.
//!
//! Every request the tool issues targets one of a handful of fixed paths,
//! parameterised only by a group or project identifier and a variable key.
//! The renderers below produce the exact byte sequence of each path.

use vstd::prelude::*;
use vstd::utf8::encode_utf8;

verus! {

/// Decimal ASCII rendering of a natural number, most significant digit
/// first, with no leading zeros (a lone zero renders as "0").
pub open spec fn dec_rep(n: nat) -> Seq<u8>
    decreases n,
{
    if n < 10 {
        seq![(0x30 + n) as u8]
    } else {
        dec_rep(n / 10).push((0x30 + n % 10) as u8)
    }
}

/// Appends the decimal rendering of `n` to `out`.
pub fn push_u64_dec(out: &mut Vec<u8>, n: u64)
    ensures
        final(out)@ == old(out)@ + dec_rep(n as nat),
    decreases n,
{
    if n < 10 {
        out.push(0x30 + (n as u8));
        proof {
            assert(out@ =~= old(out)@ + dec_rep(n as nat));
        }
    } else {
        push_u64_dec(out, n / 10);
        out.push(0x30 + ((n % 10) as u8));
        proof {
            assert(out@ =~= old(out)@ + dec_rep(n as nat));
        }
    }
}

/// Path of the flat membership listing of projects, with the caller's
/// permission attached to each entry.
pub open spec fn membership_projects_path_spec() -> Seq<u8> {
    encode_utf8("/projects?membership=true"@)
}

/// Renders the flat membership project-listing path.
pub fn membership_projects_path() -> (r: Vec<u8>)
    ensures
        r@ == membership_projects_path_spec(),
{
    let mut out: Vec<u8> = Vec::new();
    out.extend_from_slice("/projects?membership=true".as_bytes());
    proof {
        assert(out@ =~= membership_projects_path_spec());
    }
    out
}

/// Path of the listing of groups the caller belongs to.
pub open spec fn membership_groups_path_spec() -> Seq<u8> {
    encode_utf8("/groups?membership=true"@)
}

/// Renders the membership group-listing path.
pub fn membership_groups_path() -> (r: Vec<u8>)
    ensures
        r@ == membership_groups_path_spec(),
{
    let mut out: Vec<u8> = Vec::new();
    out.extend_from_slice("/groups?membership=true".as_bytes());
    proof {
        assert(out@ =~= membership_groups_path_spec());
    }
    out
}

/// Path of the first page (up to 100 entries) of a group's own
/// non-archived, non-shared projects. Entries beyond the first page are
/// not fetched; that single-page limit is a documented boundary of the
/// tool, not handled here.
pub open spec fn group_projects_path_spec(group_id: u64) -> Seq<u8> {
    encode_utf8("/groups/"@) + dec_rep(group_id as nat) + encode_utf8(
        "/projects?per_page=100&with_shared=false&archived=false"@,
    )
}

/// Renders the group project-listing path for `group_id`.
pub fn group_projects_path(group_id: u64) -> (r: Vec<u8>)
    ensures
        r@ == group_projects_path_spec(group_id),
{
    let mut out: Vec<u8> = Vec::new();
    out.extend_from_slice("/groups/".as_bytes());
    push_u64_dec(&mut out, group_id);
    out.extend_from_slice("/projects?per_page=100&with_shared=false&archived=false".as_bytes());
    proof {
        assert(out@ =~= group_projects_path_spec(group_id));
    }
    out
}

/// Path of the first page (up to 100 entries) of a group's direct
/// subgroups; the same single-page boundary applies.
pub open spec fn group_subgroups_path_spec(group_id: u64) -> Seq<u8> {
    encode_utf8("/groups/"@) + dec_rep(group_id as nat) + encode_utf8("/subgroups?per_page=100"@)
}

/// Renders the subgroup-listing path for `group_id`.
pub fn group_subgroups_path(group_id: u64) -> (r: Vec<u8>)
    ensures
        r@ == group_subgroups_path_spec(group_id),
{
    let mut out: Vec<u8> = Vec::new();
    out.extend_from_slice("/groups/".as_bytes());
    push_u64_dec(&mut out, group_id);
    out.extend_from_slice("/subgroups?per_page=100".as_bytes());
    proof {
        assert(out@ =~= group_subgroups_path_spec(group_id));
    }
    out
}

/// Path of a project's pipeline-variable collection: the target of the
/// create (POST) that a missing variable takes.
pub open spec fn project_variables_path_spec(project_id: u64) -> Seq<u8> {
    encode_utf8("/projects/"@) + dec_rep(project_id as nat) + encode_utf8("/variables"@)
}

/// Renders the pipeline-variable collection path for `project_id`.
pub fn project_variables_path(project_id: u64) -> (r: Vec<u8>)
    ensures
        r@ == project_variables_path_spec(project_id),
{
    let mut out: Vec<u8> = Vec::new();
    out.extend_from_slice("/projects/".as_bytes());
    push_u64_dec(&mut out, project_id);
    out.extend_from_slice("/variables".as_bytes());
    proof {
        assert(out@ =~= project_variables_path_spec(project_id));
    }
    out
}

/// Path of a project's named pipeline-variable resource: the target of
/// both the existence check (GET) and the write (PUT).
pub open spec fn project_variable_path_spec(project_id: u64, key: Seq<char>) -> Seq<u8> {
    encode_utf8("/projects/"@) + dec_rep(project_id as nat) + encode_utf8("/variables/"@)
        + encode_utf8(key)
}

/// Renders the pipeline-variable path for `project_id` and `key`.
pub fn project_variable_path(project_id: u64, key: &str) -> (r: Vec<u8>)
    ensures
        r@ == project_variable_path_spec(project_id, key@),
{
    let mut out: Vec<u8> = Vec::new();
    out.extend_from_slice("/projects/".as_bytes());
    push_u64_dec(&mut out, project_id);
    out.extend_from_slice("/variables/".as_bytes());
    out.extend_from_slice(key.as_bytes());
    proof {
        assert(out@ =~= project_variable_path_spec(project_id, key@));
    }
    out
}

} // verus!
