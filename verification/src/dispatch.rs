//! What a node does with one message it receives on its TCP port, in order:
//! a command of the cluster protocol, then the `CLIENT` chunks of a Redis
//! message, then a Redis command.

use vstd::prelude::*;
use crate::internal::{cluster_message, internal_msg, parse_internal, InternalRequest};
use crate::resp::{
    ascii_text, ascii_upper_text, chunk_kind, read_resp, resp_chunks, resp_lines, resp_msg,
    scan_chunks, upper_text, ChunkKind, RespRequest,
};

verus! {

/// The number of `CLIENT` chunks.
pub open spec fn client_count(kinds: Seq<ChunkKind>) -> nat
    decreases kinds.len(),
{
    if kinds.len() == 0 {
        0
    } else {
        client_count(kinds.drop_last()) + if kinds.last() == ChunkKind::Client {
            1nat
        } else {
            0nat
        }
    }
}

/// What a node does with one message: carry out `internal` and send its
/// answer; then send `+OK\r\n` once per `CLIENT` chunk; then, where there
/// was no `CLIENT` chunk, carry out `redis` and send its answer.
pub struct MessagePlan {
    pub internal: Option<InternalRequest>,
    pub client_acks: usize,
    pub redis: Option<RespRequest>,
}

/// Decides what a node does with one message. A chunk with fewer than two
/// non-blank lines is no `CLIENT` command and is passed over.
pub fn plan_message(input: &str) -> (p: MessagePlan)
    ensures
        match p.internal {
            Some(q) => cluster_message(input@) && q@ == internal_msg(input@),
            None => !cluster_message(input@),
        },
        p.client_acks == client_count(
            resp_chunks(input@).map_values(|c: Seq<char>| chunk_kind(c)),
        ),
        p.client_acks > 0 ==> p.redis is None,
        p.client_acks == 0 ==> match p.redis {
            Some(q) => {
                &&& resp_lines(input@).len() >= 3
                &&& q@ == resp_msg(resp_lines(input@), upper_text(resp_lines(input@)[2]))
                &&& ascii_text(resp_lines(input@)[2]) ==> q@ == resp_msg(
                    resp_lines(input@),
                    ascii_upper_text(resp_lines(input@)[2]),
                )
            },
            None => resp_lines(input@).len() < 3,
        },
{
    let internal = parse_internal(input);
    let kinds = scan_chunks(input);
    let mut acks: usize = 0;
    for i in 0..kinds.len()
        invariant
            acks as nat == client_count(kinds@.take(i as int)),
            acks <= i,
    {
        assert(kinds@.take(i + 1).drop_last() =~= kinds@.take(i as int));
        assert(kinds@.take(i + 1).last() == kinds@[i as int]);
        match kinds[i] {
            ChunkKind::Client => {
                acks = acks + 1;
            },
            _ => {},
        }
    }
    assert(kinds@.take(kinds@.len() as int) =~= kinds@);
    let redis = if acks > 0 {
        None
    } else {
        read_resp(input)
    };
    MessagePlan { internal, client_acks: acks, redis }
}

} // verus!
