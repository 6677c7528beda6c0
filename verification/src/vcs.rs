//! The version-control safety check run before any file is rewritten.
//!
//! Rewriting source in place is only safe to offer when the user can
//! revert it.  Given the observed state of the working tree and the
//! user's override flags, this module decides exactly which warning to print
//! and whether the whole run must abort.  Observing the tree (detecting a
//! checkout, listing uncommitted changes) is I/O and happens outside this
//! crate; the decision itself is fully specified here.
use crate::render::{lemma_ops_model_push, ops_model, push_warning, warning_pieces, Piece, RenderOp};
use vstd::prelude::*;

verus! {

/// The observed state of the working tree.
pub enum VcsState {
    /// Under version control, with no uncommitted changes.
    Clean,
    /// No version control system detected.
    NoVcs,
    /// Under version control, with uncommitted changes; the payload is the
    /// status listing that shows them, reproduced verbatim in the warning.
    Dirty(String),
}

/// The decision: the warning to print (empty for a clean tree)
/// and, when the run must not continue, the error to abort with.
pub struct VcsOutcome {
    pub warning: Vec<RenderOp>,
    pub error: Option<String>,
}

/// The warning printed when no version control system is found.
pub open spec fn no_vcs_warning() -> Seq<Piece> {
    warning_pieces() + seq![
        Piece::Bold,
        Piece::Text("Could not detect a version control system\n"@),
        Piece::Reset,
        Piece::Text(
            "You should consider using a VCS so you can easily see and revert rustfix's changes.\n"@,
        ),
    ]
}

/// The warning printed when the working tree has uncommitted changes,
/// ending with the verbatim status listing.
pub open spec fn dirty_warning(status: Seq<char>) -> Seq<Piece> {
    warning_pieces() + seq![
        Piece::Bold,
        Piece::Text("Working directory dirty\n"@),
        Piece::Reset,
        Piece::Text(
            "Make sure your working directory is clean so you can easily revert rustfix's changes.\n"@,
        ),
        Piece::Text(status),
    ]
}

/// The error that aborts a run without version control.
pub open spec fn no_vcs_error() -> Seq<char> {
    "No VCS found, aborting. Overwrite this behavior with `--allow-no-vcs`."@
}

/// The error that aborts a run with a dirty working tree.
pub open spec fn dirty_error() -> Seq<char> {
    "Aborting because of dirty working directory. Overwrite this behavior with `--allow-dirty`."@
}

/// Decides whether fixing may start.  A clean, versioned tree passes
/// silently.  A missing VCS or a dirty tree always warns, and aborts the
/// run unless the matching override flag was given.
pub fn check_version_control(state: &VcsState, allow_no_vcs: bool, allow_dirty: bool) -> (r:
    VcsOutcome)
    ensures
        match state {
            VcsState::Clean => ops_model(r.warning@) == Seq::<Piece>::empty() && r.error is None,
            VcsState::NoVcs => ops_model(r.warning@) == no_vcs_warning() && (r.error is Some)
                == !allow_no_vcs && (r.error matches Option::Some(e) ==> e@ == no_vcs_error()),
            VcsState::Dirty(status) => ops_model(r.warning@) == dirty_warning(status@) && (r.error
                is Some) == !allow_dirty && (r.error matches Option::Some(e) ==> e@
                == dirty_error()),
        },
{
    broadcast use lemma_ops_model_push;

    match state {
        VcsState::Clean => {
            let r = VcsOutcome { warning: Vec::new(), error: Option::None };
            proof {
                assert(ops_model(r.warning@) =~= Seq::<Piece>::empty());
            }
            r
        },
        VcsState::NoVcs => {
            let mut warning: Vec<RenderOp> = Vec::new();
            push_warning(&mut warning);
            warning.push(RenderOp::Bold);
            warning.push(RenderOp::Text("Could not detect a version control system\n".to_owned()));
            warning.push(RenderOp::Reset);
            warning.push(RenderOp::Text(
                "You should consider using a VCS so you can easily see and revert rustfix's changes.\n".to_owned(),
            ));
            proof {
                assert(ops_model(warning@) =~= no_vcs_warning());
            }
            let error: Option<String> = if allow_no_vcs {
                Option::None
            } else {
                Option::Some(
                    "No VCS found, aborting. Overwrite this behavior with `--allow-no-vcs`.".to_owned(),
                )
            };
            VcsOutcome { warning, error }
        },
        VcsState::Dirty(status) => {
            let mut warning: Vec<RenderOp> = Vec::new();
            push_warning(&mut warning);
            warning.push(RenderOp::Bold);
            warning.push(RenderOp::Text("Working directory dirty\n".to_owned()));
            warning.push(RenderOp::Reset);
            warning.push(RenderOp::Text(
                "Make sure your working directory is clean so you can easily revert rustfix's changes.\n".to_owned(),
            ));
            warning.push(RenderOp::Text(status.clone()));
            proof {
                assert(ops_model(warning@) =~= dirty_warning(status@));
            }
            let error: Option<String> = if allow_dirty {
                Option::None
            } else {
                Option::Some(
                    "Aborting because of dirty working directory. Overwrite this behavior with `--allow-dirty`.".to_owned(),
                )
            };
            VcsOutcome { warning, error }
        },
    }
}

} // verus!
