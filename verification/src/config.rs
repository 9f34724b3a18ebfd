//! What an action server is set up with: the names of its topics and the
//! values that stand in where nothing usable is configured.

use vstd::prelude::*;
use vstd::string::*;

verus! {

/// The depth of the outgoing queues where none is configured.
pub const DEFAULT_PUB_QUEUE_SIZE: usize = 50;

/// The depth of the incoming queues where none is configured.
pub const DEFAULT_SUB_QUEUE_SIZE: usize = 0;

/// The time in nanoseconds for which the record of a finished goal stays
/// listed, where none is configured: five seconds.
pub const DEFAULT_STATUS_LIST_TIMEOUT_NS: i64 = 5_000_000_000;

/// The depth of a queue as configured: `default` where nothing is configured
/// or the configured number is negative.
pub fn decode_queue_size(param: Option<i32>, default: usize) -> (r: usize)
    ensures
        r == match param {
            Some(v) => if v < 0 {
                default
            } else {
                v as usize
            },
            None => default,
        },
{
    match param {
        None => default,
        Some(v) => if v < 0 {
            default
        } else {
            v as usize
        },
    }
}

/// The five topics of an action.
#[derive(Clone, Copy, Debug, PartialEq, Eq, Structural)]
pub enum Topic {
    Goal,
    Cancel,
    Status,
    Result,
    Feedback,
}

impl Topic {
    /// The name of the topic below the server's namespace.
    pub open spec fn leaf(self) -> Seq<char> {
        match self {
            Topic::Goal => "goal"@,
            Topic::Cancel => "cancel"@,
            Topic::Status => "status"@,
            Topic::Result => "result"@,
            Topic::Feedback => "feedback"@,
        }
    }

    /// The full name of the topic for a server in `namespace`.
    pub fn name(self, namespace: &str) -> (r: String)
        ensures
            r@ == namespace@ + seq!['/'] + self.leaf(),
    {
        let leaf = match self {
            Topic::Goal => "goal",
            Topic::Cancel => "cancel",
            Topic::Status => "status",
            Topic::Result => "result",
            Topic::Feedback => "feedback",
        };
        proof {
            reveal_strlit("/");
        }
        let mut name = String::from_str(namespace);
        name.append("/");
        name.append(leaf);
        assert(name@ =~= namespace@ + seq!['/'] + self.leaf());
        name
    }
}

} // verus!
