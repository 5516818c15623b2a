//! The controller service's bookkeeping rules: which mesh requests a remote worker may make,
//! enrollment against one-time invites, claiming assigned work, capacity reservations, and
//! replaying promotion canaries.

use crate::crypto::{hex_lower, sha256_of};
use crate::edge::{parse_uuid, uuid_parse_of};
use crate::policy::{denial_text, signature_valid_spec, verify_enrollment, Denial};
use crate::diagnostics::{lemma_uuid_text_shape, uuid_text, uuid_text_of};
use crate::edge::{enrollment_code_spec, first_dot};
use crate::controller::{live_reservations, ResourceReservation};
use crate::policy::Governor;
use crate::protocol::{EnrollmentRequestV1, JobSpecV1, PromotionCandidateV1, PromotionCanaryLeaseV1, NANOS_PER_SECOND};
use crate::service::Assignment;
use crate::storage::sha256_hex;
use crate::text::{
    all_hex, has_char_infix, has_char_prefix, str_contains, str_starts_with, text_eq, texts_equal, texts_view, utf8,
};
use vstd::prelude::*;
use vstd::string::StrSliceExecFns;

verus! {

broadcast use vstd::string::group_string_axioms;

/// The request path prefix under which a remote worker claims work for a node.
pub const CLAIM_PATH_PREFIX: &'static str = "/v1/work/claim?node_id=";

/// The body of a mesh control request, as read for the route it addresses.
#[derive(Debug, Clone)]
pub enum MeshBody {
    /// The request carries no body.
    Missing,
    /// The body does not read as what the route expects.
    Invalid,
    /// An enrollment request, by the public key of the identity it enrolls.
    Enrollment { public_key: String },
    /// A resource offer, by node and whether it carries a signed mesh endpoint.
    Offer { node_id: u128, has_mesh_endpoint: bool },
    /// An execution receipt, by node.
    Receipt { node_id: u128 },
    /// A link probe request, by node.
    LinkProbe { node_id: u128 },
}

/// The public key enrolled for a node: that of the first registry entry under its id.
pub open spec fn enrolled_key(nodes: Seq<(u128, String)>, node_id: u128) -> Option<Seq<char>>
    decreases nodes.len(),
{
    if nodes.len() == 0 {
        None
    } else if nodes[0].0 == node_id {
        Some(nodes[0].1@)
    } else {
        enrolled_key(nodes.skip(1), node_id)
    }
}

/// A remote peer may act for a node only when the node is enrolled under the peer's key.
pub open spec fn mesh_node_verdict(nodes: Seq<(u128, String)>, peer: Seq<char>, node_id: u128) -> Result<(), Seq<char>> {
    if enrolled_key(nodes, node_id) == Some(peer) {
        Ok(())
    } else {
        Err("remote worker is not enrolled for this node id"@)
    }
}

/// Whether a mesh path holds `..`, `%` or `#`, which no canonical route does.
pub open spec fn mesh_path_uncanonical(path: Seq<char>) -> bool {
    has_char_infix(path, ".."@) || has_char_infix(path, "%"@) || has_char_infix(path, "#"@)
}

/// The authorization of a mesh control request from the peer whose transport key is `peer`.
pub open spec fn mesh_control_verdict(
    method: Seq<char>,
    path: Seq<char>,
    body: MeshBody,
    peer: Seq<char>,
    nodes: Seq<(u128, String)>,
) -> Result<(), Seq<char>> {
    if mesh_path_uncanonical(path) {
        Err("mesh path is not canonical"@)
    } else if method == "GET"@ && path == "/health"@ {
        Ok(())
    } else if method == "POST"@ && path == "/v1/nodes/enroll"@ {
        match body {
            MeshBody::Missing => Err("enrollment body is missing"@),
            MeshBody::Enrollment { public_key } => if public_key@ == peer {
                Ok(())
            } else {
                Err("transport identity and enrollment identity differ"@)
            },
            _ => Err("enrollment body is invalid"@),
        }
    } else if method == "POST"@ && path == "/v1/offers"@ {
        match body {
            MeshBody::Missing => Err("offer body is missing"@),
            MeshBody::Offer { node_id, has_mesh_endpoint } => if !has_mesh_endpoint {
                Err("remote worker offer requires a signed mesh endpoint"@)
            } else {
                mesh_node_verdict(nodes, peer, node_id)
            },
            _ => Err("offer body is invalid"@),
        }
    } else if method == "POST"@ && path == "/v1/receipts"@ {
        match body {
            MeshBody::Missing => Err("receipt body is missing"@),
            MeshBody::Receipt { node_id } => mesh_node_verdict(nodes, peer, node_id),
            _ => Err("receipt body is invalid"@),
        }
    } else if method == "POST"@ && path == "/v1/benchmarks/link"@ {
        match body {
            MeshBody::Missing => Err("link probe body is missing"@),
            MeshBody::LinkProbe { node_id } => mesh_node_verdict(nodes, peer, node_id),
            _ => Err("link probe body is invalid"@),
        }
    } else if method == "GET"@ && has_char_prefix(path, CLAIM_PATH_PREFIX@) {
        match uuid_parse_of(path.skip(CLAIM_PATH_PREFIX@.len() as int)) {
            Some(node_id) => mesh_node_verdict(nodes, peer, node_id),
            None => Err("claim node id is invalid"@),
        }
    } else {
        Err("route is not exposed to remote workers"@)
    }
}

/// Require that `node_id` is enrolled under the remote peer's transport key; `nodes` is the node
/// registry as (node id, hex public key) entries.
pub fn require_mesh_node(nodes: &Vec<(u128, String)>, peer: &str, node_id: u128) -> (r: Result<(), String>)
    ensures
        match r {
            Ok(_) => mesh_node_verdict(nodes@, peer@, node_id) is Ok,
            Err(m) => mesh_node_verdict(nodes@, peer@, node_id) == Err::<(), Seq<char>>(m@),
        },
{
    let mut i: usize = 0;
    assert(nodes@.skip(0) =~= nodes@);
    while i < nodes.len()
        invariant
            i <= nodes@.len(),
            enrolled_key(nodes@, node_id) == enrolled_key(nodes@.skip(i as int), node_id),
        decreases nodes@.len() - i,
    {
        assert(nodes@.skip(i as int)[0] == nodes@[i as int]);
        assert(nodes@.skip(i as int).skip(1) =~= nodes@.skip(i + 1));
        if nodes[i].0 == node_id {
            if text_eq(nodes[i].1.as_str(), peer) {
                return Ok(());
            }
            return Err("remote worker is not enrolled for this node id".to_string());
        }
        i = i + 1;
    }
    Err("remote worker is not enrolled for this node id".to_string())
}

/// Decide whether a remote worker, known by its transport key `peer`, may make a mesh control
/// request: only canonical paths, only the routes exposed to workers, and only for nodes enrolled
/// under that very key. `body` is the request body as read for the route addressed.
pub fn authorize_mesh_control(
    method: &str,
    path: &str,
    body: &MeshBody,
    peer: &str,
    nodes: &Vec<(u128, String)>,
) -> (r: Result<(), String>)
    ensures
        match r {
            Ok(_) => mesh_control_verdict(method@, path@, *body, peer@, nodes@) is Ok,
            Err(m) => mesh_control_verdict(method@, path@, *body, peer@, nodes@) == Err::<(), Seq<char>>(m@),
        },
{
    if str_contains(path, "..") || str_contains(path, "%") || str_contains(path, "#") {
        return Err("mesh path is not canonical".to_string());
    }
    if text_eq(method, "GET") && text_eq(path, "/health") {
        Ok(())
    } else if text_eq(method, "POST") && text_eq(path, "/v1/nodes/enroll") {
        match body {
            MeshBody::Missing => Err("enrollment body is missing".to_string()),
            MeshBody::Enrollment { public_key } => if text_eq(public_key.as_str(), peer) {
                Ok(())
            } else {
                Err("transport identity and enrollment identity differ".to_string())
            },
            _ => Err("enrollment body is invalid".to_string()),
        }
    } else if text_eq(method, "POST") && text_eq(path, "/v1/offers") {
        match body {
            MeshBody::Missing => Err("offer body is missing".to_string()),
            MeshBody::Offer { node_id, has_mesh_endpoint } => if !*has_mesh_endpoint {
                Err("remote worker offer requires a signed mesh endpoint".to_string())
            } else {
                require_mesh_node(nodes, peer, *node_id)
            },
            _ => Err("offer body is invalid".to_string()),
        }
    } else if text_eq(method, "POST") && text_eq(path, "/v1/receipts") {
        match body {
            MeshBody::Missing => Err("receipt body is missing".to_string()),
            MeshBody::Receipt { node_id } => require_mesh_node(nodes, peer, *node_id),
            _ => Err("receipt body is invalid".to_string()),
        }
    } else if text_eq(method, "POST") && text_eq(path, "/v1/benchmarks/link") {
        match body {
            MeshBody::Missing => Err("link probe body is missing".to_string()),
            MeshBody::LinkProbe { node_id } => require_mesh_node(nodes, peer, *node_id),
            _ => Err("link probe body is invalid".to_string()),
        }
    } else if text_eq(method, "GET") && str_starts_with(path, CLAIM_PATH_PREFIX) {
        let start = CLAIM_PATH_PREFIX.unicode_len();
        let end = path.unicode_len();
        let rest = path.substring_char(start, end);
        assert(rest@ == path@.skip(CLAIM_PATH_PREFIX@.len() as int));
        match parse_uuid(rest) {
            Some(node_id) => require_mesh_node(nodes, peer, node_id),
            None => Err("claim node id is invalid".to_string()),
        }
    } else {
        Err("route is not exposed to remote workers".to_string())
    }
}

/// The schema an enrollment request must carry.
pub const ENROLLMENT_REQUEST_SCHEMA: &'static str = "rampage.enrollment-request.v1";

/// A one-time enrollment invite: the hex SHA-256 of its secret and the instant it lapses.
#[derive(Debug, Clone)]
pub struct InviteRecord {
    pub secret_hash: String,
    pub expires_at: i128,
}

/// What an invite stores of its secret: the lowercase hex SHA-256 of the secret's UTF-8 bytes.
pub open spec fn secret_hash_spec(secret: Seq<char>) -> Seq<char> {
    hex_lower(sha256_of(utf8(secret)))
}

/// Hash an enrollment secret for storage in its invite.
pub fn hash_secret(secret: &str) -> (r: String)
    ensures
        r@ == secret_hash_spec(secret@),
{
    sha256_hex(secret.as_bytes())
}

/// Entry `k` is the first invite stored under `invite_id`.
pub open spec fn first_invite_at(invites: Seq<(u128, InviteRecord)>, invite_id: u128, k: int) -> bool {
    &&& 0 <= k < invites.len()
    &&& invites[k].0 == invite_id
    &&& forall|j: int| 0 <= j < k ==> invites[j].0 != invite_id
}

/// The invite stored under `invite_id`, if any.
pub open spec fn invite_of(invites: Seq<(u128, InviteRecord)>, invite_id: u128) -> Option<InviteRecord> {
    if exists|k: int| first_invite_at(invites, invite_id, k) {
        Some(invites[choose|k: int| first_invite_at(invites, invite_id, k)].1)
    } else {
        None
    }
}

proof fn lemma_first_invite_unique(invites: Seq<(u128, InviteRecord)>, invite_id: u128, k: int)
    requires
        first_invite_at(invites, invite_id, k),
    ensures
        invite_of(invites, invite_id) == Some(invites[k].1),
{
    let c = choose|c: int| first_invite_at(invites, invite_id, c);
    assert(first_invite_at(invites, invite_id, c));
    if c < k {
        assert(invites[c].0 != invite_id);
    } else if k < c {
        assert(invites[k].0 != invite_id);
    }
}

/// How an enrollment request is answered, given the invite stored under its invite id: the
/// schema must be current (400), the request signed by the key it enrolls (401), the invite known
/// (401), live at `now` and issued for this very secret (401).
pub open spec fn enrollment_verdict(
    request: EnrollmentRequestV1,
    unsigned_json: Seq<u8>,
    invite: Option<InviteRecord>,
    now: i128,
) -> Result<(), (u16, Seq<char>)> {
    if request.schema@ != ENROLLMENT_REQUEST_SCHEMA@ {
        Err((400u16, "unsupported enrollment schema"@))
    } else if !signature_valid_spec(request.identity.public_key@, request.signature@, sha256_of(unsigned_json)) {
        Err((401u16, denial_text(Denial::InvalidSignature)))
    } else {
        match invite {
            None => Err((401u16, "unknown or already consumed invite"@)),
            Some(record) => if record.expires_at <= now || record.secret_hash@ != secret_hash_spec(request.enrollment_code@) {
                Err((401u16, "expired or invalid enrollment code"@))
            } else {
                Ok(())
            },
        }
    }
}

/// Whether an enrollment request reaches its invite, which it then consumes whatever the outcome.
pub open spec fn enrollment_reaches_invite(request: EnrollmentRequestV1, unsigned_json: Seq<u8>) -> bool {
    request.schema@ == ENROLLMENT_REQUEST_SCHEMA@
        && signature_valid_spec(request.identity.public_key@, request.signature@, sha256_of(unsigned_json))
}

/// Admit an enrollment request against the one-time invites at `now`. `unsigned_json` is the
/// request's canonical JSON with its signature emptied. A correctly signed request consumes its
/// invite, whether or not the code then proves valid, so an invite answers at most one request.
pub fn admit_enrollment(
    request: &EnrollmentRequestV1,
    unsigned_json: &[u8],
    invites: &mut Vec<(u128, InviteRecord)>,
    now: i128,
) -> (r: Result<(), (u16, String)>)
    ensures
        match r {
            Ok(_) => enrollment_verdict(*request, unsigned_json@, invite_of(old(invites)@, request.invite_id), now) is Ok,
            Err((status, m)) => enrollment_verdict(*request, unsigned_json@, invite_of(old(invites)@, request.invite_id), now)
                == Err::<(), (u16, Seq<char>)>((status, m@)),
        },
        enrollment_reaches_invite(*request, unsigned_json@) && invite_of(old(invites)@, request.invite_id) is Some ==> exists|k: int|
            first_invite_at(old(invites)@, request.invite_id, k) && final(invites)@ == old(invites)@.remove(k),
        !(enrollment_reaches_invite(*request, unsigned_json@) && invite_of(old(invites)@, request.invite_id) is Some)
            ==> final(invites)@ == old(invites)@,
{
    if !text_eq(request.schema.as_str(), ENROLLMENT_REQUEST_SCHEMA) {
        return Err((400, "unsupported enrollment schema".to_string()));
    }
    match verify_enrollment(request, unsigned_json) {
        Err(d) => {
            return Err((401, d.message()));
        },
        Ok(_) => {},
    }
    let mut k: usize = 0;
    while k < invites.len()
        invariant
            k <= invites@.len(),
            invites@ == old(invites)@,
            forall|j: int| 0 <= j < k ==> invites@[j].0 != request.invite_id,
        ensures
            k <= invites@.len(),
            invites@ == old(invites)@,
            forall|j: int| 0 <= j < k ==> invites@[j].0 != request.invite_id,
            k < invites@.len() ==> invites@[k as int].0 == request.invite_id,
        decreases invites@.len() - k,
    {
        if invites[k].0 == request.invite_id {
            break;
        }
        k = k + 1;
    }
    if k == invites.len() {
        assert(!exists|c: int| first_invite_at(old(invites)@, request.invite_id, c));
        return Err((401, "unknown or already consumed invite".to_string()));
    }
    proof {
        assert(first_invite_at(old(invites)@, request.invite_id, k as int));
        lemma_first_invite_unique(old(invites)@, request.invite_id, k as int);
    }
    let (_, record) = invites.remove(k);
    if record.expires_at <= now || !text_eq(record.secret_hash.as_str(), hash_secret(request.enrollment_code.as_str()).as_str()) {
        return Err((401, "expired or invalid enrollment code".to_string()));
    }
    Ok(())
}

/// How long an enrollment invite stays open, in nanoseconds: ten minutes.
pub const INVITE_TTL_NANOS: i128 = 10 * 60 * NANOS_PER_SECOND;

/// The enrollment code handed out with an invite: the invite id's UUID text, a dot, the secret.
pub open spec fn enrollment_code_text(invite_id: u128, secret: Seq<char>) -> Seq<char> {
    uuid_text_of(invite_id) + seq!['.'] + secret
}

/// Open an invite at `now` for a freshly drawn secret: the record to keep, which stores only the
/// secret's hash and lapses ten minutes on, and the enrollment code to hand out.
pub fn issue_invite(invite_id: u128, secret: &str, now: i128) -> (r: (InviteRecord, String))
    requires
        now <= i128::MAX - INVITE_TTL_NANOS,
    ensures
        r.0.secret_hash@ == secret_hash_spec(secret@),
        r.0.expires_at == now + INVITE_TTL_NANOS,
        r.1@ == enrollment_code_text(invite_id, secret@),
{
    let mut code = uuid_text(invite_id);
    proof {
        reveal_strlit(".");
    }
    code.append(".");
    code.append(secret);
    (InviteRecord { secret_hash: hash_secret(secret), expires_at: now + INVITE_TTL_NANOS }, code)
}

/// No two invites share an id, as in a map keyed by invite id.
pub open spec fn unique_invite_ids(invites: Seq<(u128, InviteRecord)>) -> bool {
    forall|i: int, j: int| 0 <= i < j < invites.len() ==> invites[i].0 != invites[j].0
}

/// An invite answers a single enrollment: once a request has consumed the invite stored under an
/// id, every later request for that id that reaches the invites is refused as unknown or already
/// consumed.
pub proof fn law_invite_single_use(
    invites: Seq<(u128, InviteRecord)>,
    invite_id: u128,
    k: int,
    later: EnrollmentRequestV1,
    later_json: Seq<u8>,
    later_now: i128,
)
    requires
        unique_invite_ids(invites),
        first_invite_at(invites, invite_id, k),
        later.invite_id == invite_id,
        enrollment_reaches_invite(later, later_json),
    ensures
        enrollment_verdict(later, later_json, invite_of(invites.remove(k), invite_id), later_now)
            == Err::<(), (u16, Seq<char>)>((401u16, "unknown or already consumed invite"@)),
{
    let rest = invites.remove(k);
    assert forall|c: int| !first_invite_at(rest, invite_id, c) by {
        if 0 <= c < rest.len() && rest[c].0 == invite_id {
            if c < k {
                assert(rest[c] == invites[c]);
            } else {
                assert(rest[c] == invites[c + 1]);
            }
        }
    }
}

/// An issued invite admits the enrollment that carries its secret: the code handed out splits back
/// into the invite id's UUID text and the secret, and a signed request for that invite carrying
/// the secret is admitted at any instant before the invite lapses.
pub proof fn law_issued_invite_admits_its_secret(
    invite_id: u128,
    secret: Seq<char>,
    record: InviteRecord,
    issued_at: i128,
    request: EnrollmentRequestV1,
    unsigned_json: Seq<u8>,
    now: i128,
)
    requires
        utf8(secret).len() == 32,
        all_hex(utf8(secret)),
        record.secret_hash@ == secret_hash_spec(secret),
        record.expires_at == issued_at + INVITE_TTL_NANOS,
        request.invite_id == invite_id,
        request.enrollment_code@ == secret,
        enrollment_reaches_invite(request, unsigned_json),
        now < issued_at + INVITE_TTL_NANOS,
    ensures
        enrollment_code_spec(enrollment_code_text(invite_id, secret)) == (match uuid_parse_of(uuid_text_of(invite_id)) {
            Some(id) => Ok::<(u128, Seq<char>), Seq<char>>((id, secret)),
            None => Err("enrollment invite id is not a UUID"@),
        }),
        enrollment_verdict(request, unsigned_json, Some(record), now) is Ok,
{
    let code = enrollment_code_text(invite_id, secret);
    lemma_uuid_text_shape(invite_id);
    assert(code[36] == '.');
    let d = choose|i: int| 0 <= i < code.len() && code[i] == '.' && forall|j: int| 0 <= j < i ==> code[j] != '.';
    assert(0 <= 36 < code.len() && code[36] == '.' && forall|j: int| 0 <= j < 36 ==> code[j] != '.') by {
        assert forall|j: int| 0 <= j < 36 implies code[j] != '.' by {
            assert(code[j] == uuid_text_of(invite_id)[j]);
        }
    }
    if d < 36 {
        assert(code[d] == uuid_text_of(invite_id)[d]);
    }
    if d > 36 {
        assert(code[36] != '.');
    }
    assert(first_dot(code) == Some(36int));
    assert(code.subrange(37, code.len() as int) =~= secret);
    assert(code.subrange(0, 36) =~= uuid_text_of(invite_id));
}

/// An assignment is open to `node_id` at `now`: unclaimed, leased to that node, and its lease
/// active at the current fencing epoch.
pub open spec fn claimable(a: Assignment, node_id: u128, now: i128, epoch: u64) -> bool {
    !a.claimed && a.lease.node_id == node_id && a.lease.active_at_spec(now, epoch)
}

/// Claim, for `node_id` at `now`, the open assignment whose lease was issued first, marking it
/// claimed, and return its position; `None`, with nothing changed, when no assignment is open to
/// the node. Among assignments issued at the same instant the earliest in the list is taken.
pub fn claim_next_assignment(assignments: &mut Vec<Assignment>, node_id: u128, now: i128, epoch: u64) -> (r: Option<usize>)
    ensures
        final(assignments)@.len() == old(assignments)@.len(),
        match r {
            None => {
                &&& final(assignments)@ == old(assignments)@
                &&& forall|j: int| 0 <= j < old(assignments)@.len() ==> !claimable(#[trigger] old(assignments)@[j], node_id, now, epoch)
            },
            Some(i) => {
                &&& i < old(assignments)@.len()
                &&& claimable(old(assignments)@[i as int], node_id, now, epoch)
                &&& forall|j: int| 0 <= j < old(assignments)@.len() && claimable(#[trigger] old(assignments)@[j], node_id, now, epoch)
                    ==> old(assignments)@[i as int].lease.issued_at <= old(assignments)@[j].lease.issued_at
                &&& final(assignments)@[i as int].claimed
                &&& final(assignments)@[i as int].job == old(assignments)@[i as int].job
                &&& final(assignments)@[i as int].lease == old(assignments)@[i as int].lease
                &&& forall|j: int| 0 <= j < old(assignments)@.len() && j != i ==> final(assignments)@[j] == old(assignments)@[j]
            },
        },
{
    let mut best: Option<usize> = None;
    let mut k: usize = 0;
    while k < assignments.len()
        invariant
            k <= assignments@.len(),
            match best {
                None => forall|j: int| 0 <= j < k ==> !claimable(#[trigger] assignments@[j], node_id, now, epoch),
                Some(b) => {
                    &&& b < k
                    &&& claimable(assignments@[b as int], node_id, now, epoch)
                    &&& forall|j: int| 0 <= j < k && claimable(#[trigger] assignments@[j], node_id, now, epoch)
                        ==> assignments@[b as int].lease.issued_at <= assignments@[j].lease.issued_at
                },
            },
        decreases assignments@.len() - k,
    {
        let a = &assignments[k];
        if !a.claimed && a.lease.node_id == node_id && a.lease.is_active_at(now, epoch) {
            match best {
                None => {
                    best = Some(k);
                },
                Some(b) => {
                    if a.lease.issued_at < assignments[b].lease.issued_at {
                        best = Some(k);
                    }
                },
            }
        }
        k = k + 1;
    }
    match best {
        None => None,
        Some(b) => {
            let mut chosen = assignments.remove(b);
            chosen.claimed = true;
            assignments.insert(b, chosen);
            Some(b)
        },
    }
}

/// What a job holds on the node it runs on: each request's minimum of its class, until the lease
/// lapses.
pub open spec fn job_reservations(job: JobSpecV1, node_id: u128, expires_at: i128) -> Seq<ResourceReservation> {
    Seq::new(job.requests@.len(), |k: int| ResourceReservation {
        job_id: job.job_id,
        node_id,
        class: job.requests@[k].class,
        amount: job.requests@[k].minimum,
        expires_at,
    })
}

/// Drop the reservations that have lapsed at `now`, keeping the others in order.
pub fn retain_live_reservations(book: &mut Vec<ResourceReservation>, now: i128)
    ensures
        final(book)@ == live_reservations(old(book)@, now),
{
    let mut kept: Vec<ResourceReservation> = Vec::new();
    let mut i: usize = 0;
    assert(book@.take(0) =~= Seq::<ResourceReservation>::empty());
    while i < book.len()
        invariant
            i <= book@.len(),
            book@ == old(book)@,
            kept@ == live_reservations(book@.take(i as int), now),
        decreases book@.len() - i,
    {
        let r = book[i];
        assert(book@.take(i + 1).drop_last() =~= book@.take(i as int));
        assert(book@.take(i + 1).last() == r);
        if r.expires_at > now {
            kept.push(r);
        }
        i = i + 1;
    }
    assert(book@.take(book@.len() as int) =~= book@);
    *book = kept;
}

/// Hold capacity for a job placed on `node_id` under a lease that lapses at `expires_at`.
pub fn reserve_job(book: &mut Vec<ResourceReservation>, job: &JobSpecV1, node_id: u128, expires_at: i128)
    ensures
        final(book)@ == old(book)@ + job_reservations(*job, node_id, expires_at),
{
    let ghost start = book@;
    let mut k: usize = 0;
    while k < job.requests.len()
        invariant
            k <= job.requests@.len(),
            book@ == start + job_reservations(*job, node_id, expires_at).take(k as int),
        decreases job.requests@.len() - k,
    {
        let request = &job.requests[k];
        book.push(ResourceReservation {
            job_id: job.job_id,
            node_id,
            class: request.class,
            amount: request.minimum,
            expires_at,
        });
        assert(job_reservations(*job, node_id, expires_at).take(k + 1) =~= job_reservations(*job, node_id, expires_at).take(
            k as int,
        ).push(job_reservations(*job, node_id, expires_at)[k as int]));
        k = k + 1;
    }
    assert(job_reservations(*job, node_id, expires_at).take(job.requests@.len() as int) =~= job_reservations(*job, node_id, expires_at));
}

/// Book a newly leased job: lapsed reservations are dropped first, then the job's are added.
pub fn book_job_reservations(book: &mut Vec<ResourceReservation>, job: &JobSpecV1, node_id: u128, expires_at: i128, now: i128)
    ensures
        final(book)@ == live_reservations(old(book)@, now) + job_reservations(*job, node_id, expires_at),
{
    retain_live_reservations(book, now);
    reserve_job(book, job, node_id, expires_at);
}

/// Release what a finished job held: every reservation of that job goes, the others stay in order.
pub fn release_job_reservations(book: &mut Vec<ResourceReservation>, job_id: u128)
    ensures
        final(book)@ == old(book)@.filter(|r: ResourceReservation| r.job_id != job_id),
{
    let ghost pred = |r: ResourceReservation| r.job_id != job_id;
    let mut kept: Vec<ResourceReservation> = Vec::new();
    let mut i: usize = 0;
    proof {
        reveal_with_fuel(Seq::filter, 1);
        assert(book@.take(0).filter(pred) =~= Seq::<ResourceReservation>::empty());
    }
    while i < book.len()
        invariant
            i <= book@.len(),
            book@ == old(book)@,
            kept@ == book@.take(i as int).filter(pred),
            pred == (|r: ResourceReservation| r.job_id != job_id),
        decreases book@.len() - i,
    {
        let r = book[i];
        proof {
            assert(book@.take(i + 1).drop_last() =~= book@.take(i as int));
            assert(book@.take(i + 1).last() == r);
            reveal_with_fuel(Seq::filter, 1);
        }
        if r.job_id != job_id {
            kept.push(r);
        }
        i = i + 1;
    }
    assert(book@.take(book@.len() as int) =~= book@);
    *book = kept;
}

/// The reservations of all outstanding assignments, in order: what a restarted controller holds.
pub open spec fn assignment_reservations(assignments: Seq<Assignment>) -> Seq<ResourceReservation>
    decreases assignments.len(),
{
    if assignments.len() == 0 {
        Seq::empty()
    } else {
        let a = assignments.last();
        assignment_reservations(assignments.drop_last()) + job_reservations(a.job, a.lease.node_id, a.lease.expires_at)
    }
}

/// Rebuild the reservation book from the outstanding assignments.
pub fn reservations_of_assignments(assignments: &Vec<Assignment>) -> (r: Vec<ResourceReservation>)
    ensures
        r@ == assignment_reservations(assignments@),
{
    let mut book: Vec<ResourceReservation> = Vec::new();
    let mut i: usize = 0;
    assert(assignments@.take(0) =~= Seq::<Assignment>::empty());
    while i < assignments.len()
        invariant
            i <= assignments@.len(),
            book@ == assignment_reservations(assignments@.take(i as int)),
        decreases assignments@.len() - i,
    {
        let a = &assignments[i];
        assert(assignments@.take(i + 1).drop_last() =~= assignments@.take(i as int));
        assert(assignments@.take(i + 1).last() == *a);
        reserve_job(&mut book, &a.job, a.lease.node_id, a.lease.expires_at);
        i = i + 1;
    }
    assert(assignments@.take(assignments@.len() as int) =~= assignments@);
    book
}

proof fn lemma_filter_out_job(s: Seq<ResourceReservation>, job_id: u128)
    requires
        forall|i: int| 0 <= i < s.len() ==> (#[trigger] s[i]).job_id == job_id,
    ensures
        s.filter(|r: ResourceReservation| r.job_id != job_id) == Seq::<ResourceReservation>::empty(),
    decreases s.len(),
{
    reveal_with_fuel(Seq::filter, 1);
    if s.len() > 0 {
        lemma_filter_out_job(s.drop_last(), job_id);
    }
}

/// Releasing a job undoes its booking: booking a job's reservations and then releasing the job
/// leaves exactly the live reservations of the other jobs.
pub proof fn law_release_undoes_booking(book: Seq<ResourceReservation>, job: JobSpecV1, node_id: u128, expires_at: i128, now: i128)
    ensures
        (live_reservations(book, now) + job_reservations(job, node_id, expires_at)).filter(
            |r: ResourceReservation| r.job_id != job.job_id,
        ) == live_reservations(book, now).filter(|r: ResourceReservation| r.job_id != job.job_id),
{
    let pred = |r: ResourceReservation| r.job_id != job.job_id;
    Seq::filter_distributes_over_add(live_reservations(book, now), job_reservations(job, node_id, expires_at), pred);
    lemma_filter_out_job(job_reservations(job, node_id, expires_at), job.job_id);
    assert(live_reservations(book, now).filter(pred) + Seq::<ResourceReservation>::empty() =~= live_reservations(book, now).filter(pred));
}

/// A ledger event recorded earlier under a promotion proposal id, as read back.
#[derive(Debug, Clone)]
pub enum PriorPromotionEvent {
    /// The candidate proposed under the id.
    Proposed(PromotionCandidateV1),
    /// A canary lease issued under the id.
    CanaryIssued(PromotionCanaryLeaseV1),
    /// An event of another type.
    Other,
}

/// What the history of a proposal id says of a new canary request for it.
#[derive(Debug, Clone)]
pub enum CanaryReplay {
    /// The id is already bound to something else; the request conflicts.
    Conflict(String),
    /// A canary for this very candidate is still active; it is answered again.
    Existing(PromotionCanaryLeaseV1),
    /// Nothing earlier decides; a fresh canary may be authorized.
    Fresh,
}

/// The replay decision over the events from position `i` on: `None` where nothing decides,
/// `Some(Ok(k))` where the active canary at position `k` answers, `Some(Err(m))` on a conflict.
pub open spec fn canary_replay_from(
    events: Seq<PriorPromotionEvent>,
    candidate: PromotionCandidateV1,
    now: i128,
    epoch: u64,
    i: int,
) -> Option<Result<int, Seq<char>>>
    decreases events.len() - i,
{
    if i < 0 || i >= events.len() {
        None
    } else {
        match events[i] {
            PriorPromotionEvent::Proposed(c) => if c.candidate_digest@ != candidate.candidate_digest@ || c.project_id
                != candidate.project_id || texts_view(c.changed_paths@) != texts_view(candidate.changed_paths@) {
                Some(Err("proposal id is already bound to another candidate"@))
            } else {
                canary_replay_from(events, candidate, now, epoch, i + 1)
            },
            PriorPromotionEvent::CanaryIssued(l) => if l.candidate_digest@ != candidate.candidate_digest@ || l.project_id
                != candidate.project_id {
                Some(Err("proposal id is already bound to another canary"@))
            } else if l.active_at_spec(now, epoch) {
                Some(Ok(i))
            } else {
                canary_replay_from(events, candidate, now, epoch, i + 1)
            },
            PriorPromotionEvent::Other => canary_replay_from(events, candidate, now, epoch, i + 1),
        }
    }
}

/// Read the earlier events of a proposal id, oldest first, against a new canary request: a
/// proposal of another candidate, or a canary of another candidate or project, is a conflict; an
/// active canary for this candidate is answered again; otherwise a fresh canary may be authorized.
pub fn replay_promotion_canary(
    events: Vec<PriorPromotionEvent>,
    candidate: &PromotionCandidateV1,
    now: i128,
    epoch: u64,
) -> (r: CanaryReplay)
    ensures
        match r {
            CanaryReplay::Conflict(m) => canary_replay_from(events@, *candidate, now, epoch, 0) == Some(Err::<int, Seq<char>>(m@)),
            CanaryReplay::Existing(lease) => exists|k: int|
                canary_replay_from(events@, *candidate, now, epoch, 0) == Some(Ok::<int, Seq<char>>(k))
                    && 0 <= k < events@.len() && events@[k] == PriorPromotionEvent::CanaryIssued(lease),
            CanaryReplay::Fresh => canary_replay_from(events@, *candidate, now, epoch, 0) is None,
        },
{
    let ghost all = events@;
    let mut pending = events;
    let mut i: usize = 0;
    while i < pending.len()
        invariant
            pending@ == all,
            all == events@,
            i <= all.len(),
            canary_replay_from(all, *candidate, now, epoch, 0) == canary_replay_from(all, *candidate, now, epoch, i as int),
        decreases all.len() - i,
    {
        match &pending[i] {
            PriorPromotionEvent::Proposed(c) => {
                if !text_eq(c.candidate_digest.as_str(), candidate.candidate_digest.as_str()) || c.project_id
                    != candidate.project_id || !texts_equal(&c.changed_paths, &candidate.changed_paths) {
                    return CanaryReplay::Conflict("proposal id is already bound to another candidate".to_string());
                }
            },
            PriorPromotionEvent::CanaryIssued(l) => {
                if !text_eq(l.candidate_digest.as_str(), candidate.candidate_digest.as_str()) || l.project_id
                    != candidate.project_id {
                    return CanaryReplay::Conflict("proposal id is already bound to another canary".to_string());
                }
                if l.is_active_at(now, epoch) {
                    let found = pending.remove(i);
                    match found {
                        PriorPromotionEvent::CanaryIssued(lease) => {
                            return CanaryReplay::Existing(lease);
                        },
                        _ => {
                            assert(false);
                            return CanaryReplay::Fresh;
                        },
                    }
                }
            },
            PriorPromotionEvent::Other => {},
        }
        i = i + 1;
    }
    CanaryReplay::Fresh
}

/// The status a refused canary authorization is answered with: 400 for missing evidence or an
/// understated risk, 423 while the kill latch holds, 403 otherwise.
pub open spec fn canary_denial_status_spec(d: Denial) -> u16 {
    match d {
        Denial::InvalidPromotionEvidence | Denial::PromotionRiskMismatch => 400,
        Denial::KillLatch => 423,
        _ => 403,
    }
}

/// The status a refused canary authorization is answered with.
pub fn canary_denial_status(d: &Denial) -> (r: u16)
    ensures
        r == canary_denial_status_spec(*d),
{
    match d {
        Denial::InvalidPromotionEvidence | Denial::PromotionRiskMismatch => 400,
        Denial::KillLatch => 423,
        _ => 403,
    }
}

/// Answer a request for a promotion canary at `now`: refused with 423 while the owner kill latch
/// holds; a conflicting history is answered 409; an active canary for the same candidate is
/// answered again with 200; otherwise the Governor decides, and an authorized lease (still to be
/// signed) is answered 201. `canary_id` and `nonce` are drawn fresh by the caller.
pub fn decide_promotion_canary(
    kill_latch: bool,
    events: Vec<PriorPromotionEvent>,
    governor: &Governor,
    candidate: &PromotionCandidateV1,
    epoch: u64,
    now: i128,
    canary_id: u128,
    nonce: String,
) -> (r: Result<(u16, PromotionCanaryLeaseV1), (u16, String)>)
    requires
        now <= i128::MAX - 600 * NANOS_PER_SECOND,
    ensures
        kill_latch ==> (r matches Err((status, m)) && status == 423 && m@ == "owner kill latch is active"@),
        !kill_latch ==> match canary_replay_from(events@, *candidate, now, epoch, 0) {
            Some(Err(m)) => (r matches Err((status, text)) && status == 409 && text@ == m),
            Some(Ok(k)) => (r matches Ok((status, lease)) && status == 200 && events@[k] == PriorPromotionEvent::CanaryIssued(lease)),
            None => match governor.canary_verdict(*candidate, now) {
                Ok(_) => (r matches Ok((status, lease)) && status == 201 && lease.canary_id == canary_id
                    && lease.proposal_id == candidate.proposal_id && lease.candidate_digest@ == candidate.candidate_digest@
                    && lease.issued_at == now && lease.nonce@ == nonce@ && lease.fencing_epoch == epoch),
                Err(d) => (r matches Err((status, text)) && status == canary_denial_status_spec(d) && text@ == denial_text(d)),
            },
        },
{
    if kill_latch {
        return Err((423, "owner kill latch is active".to_string()));
    }
    match replay_promotion_canary(events, candidate, now, epoch) {
        CanaryReplay::Conflict(m) => Err((409, m)),
        CanaryReplay::Existing(lease) => Ok((200, lease)),
        CanaryReplay::Fresh => match governor.authorize_promotion_canary_at_epoch(candidate, epoch, now, canary_id, nonce) {
            Ok(lease) => Ok((201, lease)),
            Err(d) => Err((canary_denial_status(&d), d.message())),
        },
    }
}

} // verus!
