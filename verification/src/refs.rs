//! Composing a ref advertisement: the service header frame, a flush, one
//! data frame per reference with the capability string attached to the
//! first — or one synthetic all-zero reference when the repository has
//! none — and a closing flush.

use crate::codec::{encode_spec, GitCodec, GitMessage, MessageView};
use vstd::prelude::*;

verus! {

/// The services this server advertises.
#[derive(Clone, Copy, Debug)]
pub enum GitService {
    ReceivePack,
}

/// The wire name of a service.
pub open spec fn service_name_spec(s: GitService) -> Seq<u8> {
    match s {
        GitService::ReceivePack => seq![
            'g' as u8, 'i' as u8, 't' as u8, '-' as u8, 'r' as u8, 'e' as u8, 'c' as u8,
            'e' as u8, 'i' as u8, 'v' as u8, 'e' as u8, '-' as u8, 'p' as u8, 'a' as u8,
            'c' as u8, 'k' as u8,
        ],
    }
}

/// The payload of the advertisement's opening frame:
/// `# service=<name>` and a newline.
pub open spec fn service_header_payload(s: GitService) -> Seq<u8> {
    seq![
        '#' as u8, ' ' as u8, 's' as u8, 'e' as u8, 'r' as u8, 'v' as u8, 'i' as u8, 'c' as u8,
        'e' as u8, '=' as u8,
    ] + service_name_spec(s) + seq!['\n' as u8]
}

/// The placeholder object id advertised by an empty repository: forty ASCII
/// zeros.
pub open spec fn zero_oid() -> Seq<u8> {
    Seq::new(40, |i: int| '0' as u8)
}

/// One reference as the repository enumerates it: its object id and its
/// full name, both as the bytes that go on the wire.
#[derive(Clone, Debug)]
pub struct RefRecord {
    pub oid: Vec<u8>,
    pub name: Vec<u8>,
}

/// The plain listing payload of one reference: object id, one space, name.
pub open spec fn ref_line(oid: Seq<u8>, name: Seq<u8>) -> Seq<u8> {
    oid + seq![' ' as u8] + name
}

/// The data frames of the references from index `i` on, none of which
/// carries the capability string.
pub open spec fn ref_frames_from(refs: Seq<RefRecord>, i: int) -> Seq<u8>
    decreases refs.len() - i,
{
    if i < 0 || i >= refs.len() {
        seq![]
    } else {
        encode_spec(MessageView::Data(ref_line(refs[i].oid@, refs[i].name@))) + ref_frames_from(
            refs,
            i + 1,
        )
    }
}

/// The whole advertisement: service header frame, flush, the reference
/// frames — the first payload extended by a NUL byte and the capability
/// string, or one synthetic all-zero reference when there are none — and a
/// closing flush.
pub open spec fn advert_spec(refs: Seq<RefRecord>, caps: Seq<u8>, s: GitService) -> Seq<u8> {
    let header = encode_spec(MessageView::Data(service_header_payload(s))) + encode_spec(
        MessageView::Flush,
    );
    let body = if refs.len() == 0 {
        encode_spec(MessageView::Data(zero_oid() + seq![0u8] + caps))
    } else {
        encode_spec(MessageView::Data(ref_line(refs[0].oid@, refs[0].name@) + seq![0u8] + caps))
            + ref_frames_from(refs, 1)
    };
    header + body + encode_spec(MessageView::Flush)
}

/// Law: for a repository with no references the advertisement is exactly
/// the service header frame, a flush, one data frame holding the all-zero
/// object id followed by a NUL and the capability string, and a closing
/// flush.
pub proof fn lemma_empty_ref_advertisement(caps: Seq<u8>, s: GitService)
    ensures
        advert_spec(Seq::empty(), caps, s) == encode_spec(
            MessageView::Data(service_header_payload(s)),
        ) + encode_spec(MessageView::Flush) + encode_spec(
            MessageView::Data(zero_oid() + seq![0u8] + caps),
        ) + encode_spec(MessageView::Flush),
{
}

/// Builds the wire name of `service`.
pub fn service_name(service: &GitService) -> (r: Vec<u8>)
    ensures
        r@ == service_name_spec(*service),
{
    let mut v: Vec<u8> = Vec::new();
    v.push('g' as u8);
    v.push('i' as u8);
    v.push('t' as u8);
    v.push('-' as u8);
    v.push('r' as u8);
    v.push('e' as u8);
    v.push('c' as u8);
    v.push('e' as u8);
    v.push('i' as u8);
    v.push('v' as u8);
    v.push('e' as u8);
    v.push('-' as u8);
    v.push('p' as u8);
    v.push('a' as u8);
    v.push('c' as u8);
    v.push('k' as u8);
    assert(v@ =~= service_name_spec(*service));
    v
}

/// Builds the opening frame's payload for `service`.
pub fn service_header_bytes(service: &GitService) -> (r: Vec<u8>)
    ensures
        r@ == service_header_payload(*service),
{
    let mut v: Vec<u8> = Vec::new();
    v.push('#' as u8);
    v.push(' ' as u8);
    v.push('s' as u8);
    v.push('e' as u8);
    v.push('r' as u8);
    v.push('v' as u8);
    v.push('i' as u8);
    v.push('c' as u8);
    v.push('e' as u8);
    v.push('=' as u8);
    let name = service_name(service);
    v.extend_from_slice(name.as_slice());
    v.push('\n' as u8);
    assert(v@ =~= service_header_payload(*service));
    v
}

/// Builds the forty-zero placeholder object id.
pub fn zero_oid_bytes() -> (r: Vec<u8>)
    ensures
        r@ == zero_oid(),
{
    let mut v: Vec<u8> = Vec::new();
    let mut i: usize = 0;
    while i < 40
        invariant
            i <= 40,
            v@.len() == i,
            forall|j: int| 0 <= j < i ==> v@[j] == '0' as u8,
        decreases 40 - i,
    {
        v.push('0' as u8);
        i = i + 1;
    }
    assert(v@ =~= zero_oid());
    v
}

/// Composes the full ref advertisement for `refs` in the order given, with
/// `capabilities` attached to the first emitted reference. Every frame's
/// declared length must fit the four-digit prefix, which bounds the first
/// payload together with the capability string and every later payload on
/// its own.
pub fn build_ref_advertisement(
    refs: &Vec<RefRecord>,
    capabilities: &[u8],
    service: &GitService,
) -> (r: Vec<u8>)
    requires
        refs@.len() == 0 ==> capabilities@.len() + 45 <= 0xFFFF,
        refs@.len() > 0 ==> refs@[0].oid@.len() + refs@[0].name@.len() + capabilities@.len() + 6
            <= 0xFFFF,
        forall|i: int|
            1 <= i < refs@.len() ==> refs@[i].oid@.len() + refs@[i].name@.len() + 5 <= 0xFFFF,
    ensures
        r@ == advert_spec(refs@, capabilities@, *service),
{
    let codec = GitCodec::new();
    let mut buf: Vec<u8> = Vec::new();
    let header = service_header_bytes(service);
    codec.encode(&GitMessage::Data(header), &mut buf);
    codec.encode(&GitMessage::Flush, &mut buf);
    if refs.len() == 0 {
        let mut payload = zero_oid_bytes();
        payload.push(0);
        payload.extend_from_slice(capabilities);
        assert(payload@ =~= zero_oid() + seq![0u8] + capabilities@);
        codec.encode(&GitMessage::Data(payload), &mut buf);
        codec.encode(&GitMessage::Flush, &mut buf);
        assert(buf@ =~= advert_spec(refs@, capabilities@, *service));
        return buf;
    }
    let mut payload: Vec<u8> = Vec::new();
    payload.extend_from_slice(refs[0].oid.as_slice());
    payload.push(' ' as u8);
    payload.extend_from_slice(refs[0].name.as_slice());
    payload.push(0);
    payload.extend_from_slice(capabilities);
    assert(payload@ =~= ref_line(refs@[0].oid@, refs@[0].name@) + seq![0u8] + capabilities@);
    codec.encode(&GitMessage::Data(payload), &mut buf);
    let mut i: usize = 1;
    while i < refs.len()
        invariant
            1 <= i <= refs@.len(),
            forall|k: int|
                1 <= k < refs@.len() ==> refs@[k].oid@.len() + refs@[k].name@.len() + 5 <= 0xFFFF,
            buf@ + ref_frames_from(refs@, i as int) + encode_spec(MessageView::Flush)
                == advert_spec(refs@, capabilities@, *service),
        decreases refs@.len() - i,
    {
        let mut line: Vec<u8> = Vec::new();
        line.extend_from_slice(refs[i].oid.as_slice());
        line.push(' ' as u8);
        line.extend_from_slice(refs[i].name.as_slice());
        assert(line@ =~= ref_line(refs@[i as int].oid@, refs@[i as int].name@));
        codec.encode(&GitMessage::Data(line), &mut buf);
        proof {
            assert(buf@ + ref_frames_from(refs@, i + 1) + encode_spec(MessageView::Flush)
                =~= advert_spec(refs@, capabilities@, *service));
        }
        i = i + 1;
    }
    codec.encode(&GitMessage::Flush, &mut buf);
    assert(buf@ =~= advert_spec(refs@, capabilities@, *service));
    buf
}

} // verus!
