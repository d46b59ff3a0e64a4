//! The bounce protocol: a receiver that cannot process a message sends it back, and the
//! sender repairs and resends it.
use vstd::prelude::*;
use crate::bytes::copy_bytes;
use crate::chain::{SectionKey, SectionProofChain};
use crate::location::DstLocation;
use crate::bytes::first_index;
use crate::chain::extend_result;
use crate::message::{opt_view, CreateError, Error, ExtendProofChainError, Message, Node, VerifyStatus};
use crate::variant::Variant;

verus! {

/// What to do with an incoming message.
#[derive(Clone, Copy, Debug, PartialEq, Eq, Structural)]
pub enum IncomingAction {
    /// Fully verified and for us: handle it.
    Handle,
    /// Not for us, or not for us to judge: pass it on; our peers may have a longer chain.
    Relay,
    /// For us, but its proof chain does not reach a key we trust: send it back.
    BounceUntrusted,
    /// Drop it.
    Drop,
}

/// Why a bounce could not be acted on.
#[derive(Clone, Copy, Debug, PartialEq, Eq, Structural)]
pub enum BounceError {
    /// The message is not a bounce of the expected kind.
    NotABounce,
    /// An untrusted-message bounce carries no key of the bouncer.
    MissingDstKey,
    /// The bounced bytes are not a message of ours.
    Create(CreateError),
    /// The bounced message is itself a bounce; bounces are never bounced again.
    BounceOfBounce,
    /// The proof chain could not be extended.
    Extend(ExtendProofChainError),
}

/// Whether a payload is a bounce.
pub open spec fn is_bounce(v: Variant) -> bool {
    v is BouncedUnknownMessage || v is BouncedUntrustedMessage
}

/// The action for a message with verification result `status`, destined to us or not, and
/// a bounce or not.
pub open spec fn incoming_action(status: Result<VerifyStatus, Error>, for_us: bool, bounce: bool) -> IncomingAction {
    match status {
        Ok(VerifyStatus::Full) => if for_us { IncomingAction::Handle } else { IncomingAction::Relay },
        Ok(VerifyStatus::Unknown) => if !for_us {
            IncomingAction::Relay
        } else if bounce {
            IncomingAction::Drop
        } else {
            IncomingAction::BounceUntrusted
        },
        Err(_) => IncomingAction::Drop,
    }
}

/// Decides what to do with an incoming message from its verification result.
pub fn decide_incoming(status: Result<VerifyStatus, Error>, for_us: bool, bounce: bool) -> (r: IncomingAction)
    ensures
        r == incoming_action(status, for_us, bounce),
{
    match status {
        Ok(VerifyStatus::Full) => if for_us { IncomingAction::Handle } else { IncomingAction::Relay },
        Ok(VerifyStatus::Unknown) => {
            if !for_us {
                IncomingAction::Relay
            } else if bounce {
                IncomingAction::Drop
            } else {
                IncomingAction::BounceUntrusted
            }
        },
        Err(_) => IncomingAction::Drop,
    }
}

/// Returns whether a payload is a bounce.
pub fn variant_is_bounce(v: &Variant) -> (r: bool)
    ensures
        r == is_bounce(*v),
{
    match v {
        Variant::BouncedUnknownMessage { .. } => true,
        Variant::BouncedUntrustedMessage(_) => true,
        _ => false,
    }
}

/// The bounce of a message whose proof chain we could not trust: the whole envelope and
/// our best-known key, sent back to `sender`.
pub fn bounce_untrusted(node: &Node, msg: &Message, sender: DstLocation, our_key: SectionKey) -> (r: Message)
    requires
        node.wf(),
    ensures
        r.wf(),
        r.dst == sender,
        r.variant matches Variant::BouncedUntrustedMessage(b) && b@ == msg.serialized@,
        r.dst_key == Some(our_key),
        r.proof_chain is None,
{
    let bytes = msg.to_bytes();
    Message::single_src(node, sender, Variant::BouncedUntrustedMessage(bytes), None, Some(our_key))
}

/// The bounce of a message whose payload we cannot handle yet: its bytes and our consensus
/// version, sent back to `sender`.
pub fn bounce_unknown(node: &Node, msg_bytes: Vec<u8>, parsec_version: u64, sender: DstLocation) -> (r: Message)
    requires
        node.wf(),
    ensures
        r.wf(),
        r.dst == sender,
        r.variant matches Variant::BouncedUnknownMessage { message, parsec_version: v } && message@ == msg_bytes@ && v == parsec_version,
        r.proof_chain is None,
        r.dst_key is None,
{
    Message::single_src(node, sender, Variant::BouncedUnknownMessage { message: msg_bytes, parsec_version }, None, None)
}

/// `m2` is a message equal to `w` on every field but the proof chain, which is `w`'s chain
/// extended to start at `k` with keys of `donor`.
#[verifier::opaque]
pub open spec fn extends_as(w: Message, k: Seq<u8>, donor: SectionProofChain, m2: Message) -> bool {
    &&& m2.wf()
    &&& m2.src.same(&w.src)
    &&& m2.dst.enc() == w.dst.enc()
    &&& m2.variant.enc() == w.variant.enc()
    &&& opt_view(m2.dst_key) == opt_view(w.dst_key)
    &&& w.proof_chain matches Some(c) && m2.proof_chain matches Some(c2) && ({
        let ks = c.keys_view();
        let i = if k == ks[0] { 0 } else { first_index(donor.keys_view(), k)->0 };
        let j = if k == ks[0] { 0 } else { first_index(donor.keys_view(), ks[0])->0 };
        &&& c2.wf()
        &&& c2.keys_view() == donor.keys_view().subrange(i, j) + ks
        &&& c2.sigs_view() == donor.sigs_view().subrange(i, j) + c.sigs_view()
    })
}

/// How repairing the bounced message `w` with the key `k` and our `history` ends.
#[verifier::opaque]
pub open spec fn repair_outcome(w: Message, k: Seq<u8>, history: SectionProofChain) -> Result<(), BounceError> {
    if !w.sig_ok() {
        Err(BounceError::Create(CreateError::FailedSignature))
    } else if is_bounce(w.variant) {
        Err(BounceError::BounceOfBounce)
    } else {
        match w.proof_chain {
            None => Err(BounceError::Extend(ExtendProofChainError::NoProofChain)),
            Some(c) => match extend_result(c.keys_view(), history.keys_view(), k) {
                Err(e) => Err(BounceError::Extend(ExtendProofChainError::Extend(e))),
                Ok(_) => Ok(()),
            },
        }
    }
}

/// What `handle_bounced_untrusted` returns for the bounced `bytes` and the bouncer's key `k`:
/// a decoding error when the bytes are no message, and otherwise the outcome of repairing
/// the message they encode, with the repaired message on success.
pub open spec fn repair_post(bytes: Seq<u8>, k: Seq<u8>, history: SectionProofChain, r: Result<Message, BounceError>) -> bool {
    &&& (forall|w: Message| !(#[trigger] w.enc() == bytes && w.chain_wf()))
        ==> r == Err::<Message, BounceError>(BounceError::Create(CreateError::Decode))
    &&& forall|w: Message| #[trigger] w.enc() == bytes && w.chain_wf() ==> match repair_outcome(w, k, history) {
        Err(e) => r == Err::<Message, BounceError>(e),
        Ok(_) => r matches Ok(m) && extends_as(w, k, history, m),
    }
}

/// Acts on a bounce of an untrusted message: reads back the message we sent and extends
/// its proof chain, with keys of our `history`, to start at the key the bouncer knows.
pub fn handle_bounced_untrusted(bounce: &Message, history: &SectionProofChain) -> (r: Result<Message, BounceError>)
    requires
        history.wf(),
    ensures
        !(bounce.variant is BouncedUntrustedMessage) ==> r == Err::<Message, BounceError>(BounceError::NotABounce),
        bounce.variant is BouncedUntrustedMessage && bounce.dst_key is None ==> r == Err::<Message, BounceError>(BounceError::MissingDstKey),
        bounce.variant matches Variant::BouncedUntrustedMessage(bytes) ==> (bounce.dst_key matches Some(k) ==> repair_post(bytes@, k@, *history, r)),
{
    let bytes = match &bounce.variant {
        Variant::BouncedUntrustedMessage(b) => b,
        _ => return Err(BounceError::NotABounce),
    };
    let key = match &bounce.dst_key {
        Some(k) => k,
        None => return Err(BounceError::MissingDstKey),
    };
    let fb = Message::from_bytes(bytes.as_slice());
    let ghost fbg = fb;
    let r = match fb {
        Ok(orig) => repair(orig, key.as_slice(), history),
        Err(e) => Err(BounceError::Create(e)),
    };
    proof {
        lemma_handle(bytes@, key@, *history, fbg, r);
    }
    r
}

/// What reading back and repairing the bounced `bytes` gives, from what reading back gave.
proof fn lemma_handle(bytes: Seq<u8>, k: Seq<u8>, history: SectionProofChain, fb: Result<Message, CreateError>, r: Result<Message, BounceError>)
    requires
        crate::message::from_bytes_post(bytes, fb),
        fb matches Err(e) ==> r == Err::<Message, BounceError>(BounceError::Create(e)),
        fb matches Ok(o) ==> match repair_outcome(o, k, history) {
            Err(e) => r == Err::<Message, BounceError>(e),
            Ok(_) => r matches Ok(m) && extends_as(o, k, history, m),
        },
    ensures
        repair_post(bytes, k, history, r),
{
    if forall|w: Message| !(#[trigger] w.enc() == bytes && w.chain_wf()) {
        if fb is Ok {
            let o = fb->Ok_0;
            assert(o.enc() == bytes && o.chain_wf());
        }
    }
    assert forall|w: Message| #[trigger] w.enc() == bytes && w.chain_wf() implies match repair_outcome(w, k, history) {
        Err(e) => r == Err::<Message, BounceError>(e),
        Ok(_) => r matches Ok(m) && extends_as(w, k, history, m),
    } by {
        match fb {
            Ok(o) => {
                assert(o.same(&w));
                lemma_repair_same(o, w, k, history);
                if r is Ok {
                    lemma_extends_same(o, w, k, history, r->Ok_0);
                }
            },
            Err(e) => {
                reveal(repair_outcome);
                assert(!w.sig_ok());
            },
        }
    }
}

/// Repairs a message we sent: extends its proof chain to start at `key`.
fn repair(orig: Message, key: &[u8], history: &SectionProofChain) -> (r: Result<Message, BounceError>)
    requires
        history.wf(),
        orig.chain_wf(),
        orig.sig_ok(),
    ensures
        match repair_outcome(orig, key@, *history) {
            Err(e) => r == Err::<Message, BounceError>(e),
            Ok(_) => r matches Ok(m) && extends_as(orig, key@, *history, m),
        },
{
    proof {
        reveal(repair_outcome);
    }
    if variant_is_bounce(&orig.variant) {
        return Err(BounceError::BounceOfBounce);
    }
    let ghost o = orig;
    match orig.extend_proof_chain(key, history) {
        Ok(m) => {
            proof {
                reveal(extends_as);
                reveal(repair_outcome);
            }
            Ok(m)
        },
        Err(e) => Err(BounceError::Extend(e)),
    }
}

/// Field-wise equal messages are repaired alike.
proof fn lemma_repair_same(o: Message, w: Message, k: Seq<u8>, history: SectionProofChain)
    requires
        o.same(&w),
    ensures
        repair_outcome(o, k, history) == repair_outcome(w, k, history),
{
    reveal(repair_outcome);
    crate::message::lemma_same_sig_ok(o, w);
    w.variant.lemma_tag_payload();
    o.variant.lemma_tag_payload();
}

/// A repair of a message is a repair of every message equal to it on every field.
proof fn lemma_extends_same(o: Message, w: Message, k: Seq<u8>, history: SectionProofChain, m: Message)
    requires
        o.same(&w),
        extends_as(o, k, history, m),
    ensures
        extends_as(w, k, history, m),
{
    reveal(extends_as);
}

/// Acts on a bounce of a message the receiver could not handle yet: returns the bytes of
/// that message, to resend, and the receiver's consensus version, to catch it up from.
pub fn handle_bounced_unknown(bounce: &Message) -> (r: Result<(Vec<u8>, u64), BounceError>)
    ensures
        bounce.variant matches Variant::BouncedUnknownMessage { message, parsec_version } ==>
            r matches Ok((b, v)) && b@ == message@ && v == parsec_version,
        !(bounce.variant is BouncedUnknownMessage) ==> r == Err::<(Vec<u8>, u64), BounceError>(BounceError::NotABounce),
{
    match &bounce.variant {
        Variant::BouncedUnknownMessage { message, parsec_version } => Ok((copy_bytes(message.as_slice()), *parsec_version)),
        _ => Err(BounceError::NotABounce),
    }
}

} // verus!
