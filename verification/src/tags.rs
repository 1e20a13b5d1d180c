//! What a `tag` command line asks for: delete a tag, point a tag at a
//! snapshot, or list the tags.

use vstd::prelude::*;

verus! {

/// The request a `tag` command line makes.
#[derive(Debug, Clone, Copy, PartialEq, Eq)]
pub enum TagAction {
    /// Remove the named tag.
    Delete,
    /// Point the named tag at the named snapshot.
    Create,
    /// List every tag.
    List,
}

/// Message of a deletion without a tag name.
pub open spec fn delete_needs_name() -> Seq<char> {
    "tag name is required to delete a tag"@
}

/// Message of a creation that names only one of tag and snapshot.
pub open spec fn create_needs_both() -> Seq<char> {
    "tag creation needs both <name> and <snapshot>"@
}

/// The request of a command line that names a tag (`has_name`), a
/// snapshot (`has_snapshot`) and may ask for deletion.
pub open spec fn tag_request(has_name: bool, has_snapshot: bool, delete: bool) -> Result<
    TagAction,
    Seq<char>,
> {
    if delete {
        if has_name {
            Ok(TagAction::Delete)
        } else {
            Err(delete_needs_name())
        }
    } else if has_name && has_snapshot {
        Ok(TagAction::Create)
    } else if has_name || has_snapshot {
        Err(create_needs_both())
    } else {
        Ok(TagAction::List)
    }
}

/// Decides what a `tag` command line asks for, or why it is refused.
pub fn tag_action(has_name: bool, has_snapshot: bool, delete: bool) -> (r: Result<
    TagAction,
    String,
>)
    ensures
        match r {
            Ok(action) => tag_request(has_name, has_snapshot, delete) == Ok::<
                TagAction,
                Seq<char>,
            >(action),
            Err(message) => tag_request(has_name, has_snapshot, delete) == Err::<
                TagAction,
                Seq<char>,
            >(message@),
        },
{
    if delete {
        if has_name {
            Ok(TagAction::Delete)
        } else {
            Err(String::from_str("tag name is required to delete a tag"))
        }
    } else if has_name && has_snapshot {
        Ok(TagAction::Create)
    } else if has_name || has_snapshot {
        Err(String::from_str("tag creation needs both <name> and <snapshot>"))
    } else {
        Ok(TagAction::List)
    }
}

} // verus!
