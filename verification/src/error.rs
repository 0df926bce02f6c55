//! What goes wrong with a binding or a call.
use crate::text::join3;
use vstd::prelude::*;

verus! {

/// Why a binding is refused or a call is not made.
#[derive(Debug, Clone, PartialEq, Eq)]
pub enum BackendError {
    /// The configuration or the arguments cannot be used.
    InvalidSpec { message: String },
    /// Nothing is registered under the name.
    ProfileNotFound { backend_name: String },
    /// The upstream or the host did not answer.
    Transport { message: String },
}

/// What an error is.
pub enum BackendErrorView {
    InvalidSpec { message: Seq<char> },
    ProfileNotFound { backend_name: Seq<char> },
    Transport { message: Seq<char> },
}

impl View for BackendError {
    type V = BackendErrorView;

    open spec fn view(&self) -> BackendErrorView {
        match *self {
            BackendError::InvalidSpec { message } => BackendErrorView::InvalidSpec {
                message: message@,
            },
            BackendError::ProfileNotFound { backend_name } => BackendErrorView::ProfileNotFound {
                backend_name: backend_name@,
            },
            BackendError::Transport { message } => BackendErrorView::Transport {
                message: message@,
            },
        }
    }
}

/// The error with the message `message`.
pub open spec fn invalid(message: Seq<char>) -> BackendErrorView {
    BackendErrorView::InvalidSpec { message }
}

/// A binding whose specification cannot be read.
pub fn binding_unreadable(why: &str) -> (r: BackendError)
    ensures
        r@ == invalid("openapi binding spec: "@ + why@),
{
    let mut message = "openapi binding spec: ".to_owned();
    message.append(why);
    BackendError::InvalidSpec { message }
}

/// A client that cannot be built.
pub fn client_not_built(source: &str, why: &str) -> (r: BackendError)
    ensures
        r@ == (BackendErrorView::Transport {
            message: "building client for source '"@ + source@ + "': "@ + why@,
        }),
{
    let mut message = join3("building client for source '", source, "': ");
    message.append(why);
    BackendError::Transport { message }
}

/// Credentials that the host cannot resolve.
pub fn credentials_not_resolved(why: &str) -> (r: BackendError)
    ensures
        r@ == (BackendErrorView::Transport { message: "credential resolution: "@ + why@ }),
{
    let mut message = "credential resolution: ".to_owned();
    message.append(why);
    BackendError::Transport { message }
}

}
