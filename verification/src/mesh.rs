//! Key expressions of the mesh: each node publishes its frames under its
//! own key, and subscribers listen on the wildcard over all nodes.
use vstd::prelude::*;
use crate::text::{dec_digits, push_all, push_decimal, string_from_chars};

verus! {

/// `"maritime/frames/"`.
pub open spec fn frames_prefix() -> Seq<char> {
    seq!['m', 'a', 'r', 'i', 't', 'i', 'm', 'e', '/', 'f', 'r', 'a', 'm', 'e', 's', '/']
}

/// The key under which node `node_id` publishes its frames.
pub open spec fn frame_key_of(node_id: u64) -> Seq<char> {
    frames_prefix() + dec_digits(node_id as nat)
}

fn push_frames_prefix(out: &mut Vec<char>)
    ensures
        final(out)@ == old(out)@ + frames_prefix(),
{
    let lit = vec!['m', 'a', 'r', 'i', 't', 'i', 'm', 'e', '/', 'f', 'r', 'a', 'm', 'e', 's', '/'];
    assert(lit@ =~= frames_prefix());
    push_all(out, &lit);
}

/// The key of node `node_id`: `maritime/frames/{node_id}`.
pub fn frame_key(node_id: u64) -> (k: String)
    ensures
        k@ == frame_key_of(node_id),
{
    let mut out: Vec<char> = Vec::new();
    push_frames_prefix(&mut out);
    push_decimal(&mut out, node_id);
    assert(out@ =~= frame_key_of(node_id));
    string_from_chars(&out)
}

/// The wildcard key expression that subscribers listen on:
/// `maritime/frames/**`.
pub fn frames_wildcard() -> (k: String)
    ensures
        k@ == frames_prefix() + seq!['*', '*'],
{
    let mut out: Vec<char> = Vec::new();
    push_frames_prefix(&mut out);
    out.push('*');
    out.push('*');
    assert(out@ =~= frames_prefix() + seq!['*', '*']);
    string_from_chars(&out)
}

/// Every node's key is the subscribers' prefix followed by one non-empty
/// chunk without `/` (so the wildcard `maritime/frames/**` covers it), and
/// distinct nodes publish under distinct keys.
pub proof fn law_frame_keys(a: u64, b: u64)
    ensures
        frame_key_of(a).take(16) == frames_prefix(),
        frame_key_of(a).len() > 16,
        forall|i: int| 16 <= i < frame_key_of(a).len() ==> #[trigger] frame_key_of(a)[i] != '/',
        frame_key_of(a) == frame_key_of(b) <==> a == b,
{
    crate::text::lemma_dec_digits(a as nat);
    crate::text::lemma_dec_digits(b as nat);
    let da = dec_digits(a as nat);
    let db = dec_digits(b as nat);
    assert(frame_key_of(a).take(16) =~= frames_prefix());
    assert forall|i: int| 16 <= i < frame_key_of(a).len() implies #[trigger] frame_key_of(a)[i]
        != '/' by {
        assert(frame_key_of(a)[i] == da[i - 16]);
        assert(crate::text::is_digit(da[i - 16]));
    }
    if frame_key_of(a) == frame_key_of(b) {
        assert(frame_key_of(a).skip(16) =~= da);
        assert(frame_key_of(b).skip(16) =~= db);
    }
}

} // verus!
