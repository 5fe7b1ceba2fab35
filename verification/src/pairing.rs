//! Joining a cluster: the code that is shown, who may answer it, and what a
//! completed pairing leaves behind.

use crate::discovery::{
    random_pairing_code, six_digits, DiscoveryPacket, DiscoveryPacketView, LanPeer, LanPeerView,
    PAIRING_CODE_TTL_MS, PAIRING_MAX_ATTEMPTS,
};
use crate::text::{
    blank, char_lists, chars_of, is_blank, lemma_stripped, pieces, same, split, text_of, text_view,
    trim, trimmed, white_space,
};
use vstd::prelude::*;

verus! {

// ---------------------------------------------------------------------------
// Membership
// ---------------------------------------------------------------------------
/// The cluster that was joined and the shared secret that authorises input.
#[derive(Debug)]
pub struct Membership {
    pub cluster_id: String,
    pub pair_secret: String,
}

pub struct MembershipView {
    pub cluster_id: Seq<char>,
    pub pair_secret: Seq<char>,
}

impl View for Membership {
    type V = MembershipView;

    open spec fn view(&self) -> MembershipView {
        MembershipView { cluster_id: self.cluster_id@, pair_secret: self.pair_secret@ }
    }
}

/// A line of a text, trimmed; nothing where there is no such line.
pub open spec fn trimmed_line(lines: Seq<Seq<char>>, i: int) -> Seq<char> {
    if 0 <= i < lines.len() {
        trimmed(lines[i])
    } else {
        seq![]
    }
}

impl MembershipView {
    pub open spec fn paired(self) -> bool {
        !blank(self.cluster_id) && !blank(self.pair_secret)
    }

    /// Without a membership.
    pub open spec fn none() -> MembershipView {
        MembershipView { cluster_id: seq![], pair_secret: seq![] }
    }

    /// The membership that a file tells: the cluster on its first line, the
    /// secret on its second.
    pub open spec fn told_by(contents: Seq<char>) -> MembershipView {
        let lines = pieces(contents, '\n');
        MembershipView {
            cluster_id: trimmed_line(lines, 0),
            pair_secret: trimmed_line(lines, 1),
        }
    }

    /// The file that tells the membership.
    pub open spec fn written(self) -> Seq<char> {
        self.cluster_id + "\n"@ + self.pair_secret + "\n"@
    }
}

/// The file that a membership is kept in.
pub const MEMBERSHIP_FILE: &'static str = "pairing.txt";

fn read_line(lines: &Vec<Vec<char>>, i: usize) -> (r: String)
    ensures
        r@ == trimmed_line(char_lists(lines@), i as int),
{
    if i < lines.len() {
        let line = text_of(&lines[i]);
        trim(line.as_str()).to_string()
    } else {
        let empty = String::new();
        assert(empty@ =~= seq![]);
        empty
    }
}

impl Membership {
    pub fn is_paired(&self) -> (r: bool)
        ensures
            r == self@.paired(),
    {
        !is_blank(self.cluster_id.as_str()) && !is_blank(self.pair_secret.as_str())
    }

    /// The membership that the file tells, or none where it cannot be read.
    pub fn load(contents: Option<&str>) -> (r: Membership)
        ensures
            r@ == (match contents {
                Some(text) => MembershipView::told_by(text@),
                None => MembershipView::none(),
            }),
    {
        match contents {
            Some(text) => {
                let lines = split(&chars_of(text), '\n');
                Membership { cluster_id: read_line(&lines, 0), pair_secret: read_line(&lines, 1) }
            },
            None => {
                let cluster_id = String::new();
                let pair_secret = String::new();
                assert(cluster_id@ =~= seq![]);
                assert(pair_secret@ =~= seq![]);
                Membership { cluster_id, pair_secret }
            },
        }
    }

    /// The contents of the file: two lines of text, so that it stays readable.
    pub fn contents(&self) -> (r: String)
        ensures
            r@ == self@.written(),
    {
        let mut out = self.cluster_id.clone();
        out.append("\n");
        out.append(self.pair_secret.as_str());
        out.append("\n");
        out
    }

    pub fn copy(&self) -> (r: Membership)
        ensures
            r@ == self@,
    {
        Membership { cluster_id: self.cluster_id.clone(), pair_secret: self.pair_secret.clone() }
    }
}

/// A separator at the end of a text without one divides it from what follows.
pub proof fn lemma_pieces_of_two_lines(a: Seq<char>, b: Seq<char>, separator: char)
    requires
        !a.contains(separator),
        !b.contains(separator),
    ensures
        pieces(a + seq![separator] + b + seq![separator], separator) == seq![a, b, seq![]],
{
    let one = a + seq![separator];
    let two = one + b;
    let three = two + seq![separator];
    lemma_pieces_grow(seq![], a, separator);
    assert(seq![] + a =~= a);
    assert(pieces(seq![], separator) =~= seq![Seq::<char>::empty()]);
    assert(pieces(a, separator) =~= seq![a]);
    assert(one.drop_last() =~= a);
    assert(pieces(one, separator) =~= seq![a, seq![]]);
    lemma_pieces_grow(one, b, separator);
    assert(Seq::<char>::empty() + b =~= b);
    assert(pieces(two, separator) =~= seq![a, b]);
    assert(three.drop_last() =~= two);
    assert(pieces(three, separator) =~= seq![a, b, seq![]]);
}

/// Text without a separator goes onto the last piece.
pub proof fn lemma_pieces_grow(s: Seq<char>, added: Seq<char>, separator: char)
    requires
        !added.contains(separator),
    ensures
        pieces(s, separator).len() > 0,
        pieces(s + added, separator) == pieces(s, separator).drop_last().push(
            pieces(s, separator).last() + added,
        ),
    decreases added.len(),
{
    lemma_pieces_are_some(s, separator);
    let before = pieces(s, separator);
    if added.len() == 0 {
        assert(s + added =~= s);
        assert(before.last() + added =~= before.last());
        assert(before =~= before.drop_last().push(before.last()));
    } else {
        let front = added.drop_last();
        assert(!front.contains(separator)) by {
            if front.contains(separator) {
                let k = choose|k: int| 0 <= k < front.len() && front[k] == separator;
                assert(added[k] == separator);
            }
        }
        lemma_pieces_grow(s, front, separator);
        let whole = s + added;
        assert(whole.drop_last() =~= s + front);
        assert(whole.last() == added.last());
        assert(added[added.len() - 1] == added.last());
        let partly = pieces(s + front, separator);
        assert(partly.drop_last() =~= before.drop_last());
        assert((before.last() + front).push(added.last()) =~= before.last() + added);
    }
}

proof fn lemma_pieces_are_some(s: Seq<char>, separator: char)
    ensures
        pieces(s, separator).len() > 0,
    decreases s.len(),
{
    if s.len() > 0 {
        lemma_pieces_are_some(s.drop_last(), separator);
    }
}

/// A membership survives a restart: the file that is written tells it again.
/// Its texts are trimmed, as a completed pairing leaves them, and hold no line
/// break.
pub proof fn law_a_membership_survives_a_restart(membership: MembershipView)
    requires
        trimmed(membership.cluster_id) == membership.cluster_id,
        trimmed(membership.pair_secret) == membership.pair_secret,
        !membership.cluster_id.contains('\n'),
        !membership.pair_secret.contains('\n'),
    ensures
        MembershipView::told_by(membership.written()) == membership,
{
    reveal_strlit("\n");
    assert("\n"@ =~= seq!['\n']);
    lemma_pieces_of_two_lines(membership.cluster_id, membership.pair_secret, '\n');
}

/// Trimming twice is trimming once.
pub proof fn law_trimmed_texts_stay_trimmed(s: Seq<char>)
    ensures
        trimmed(trimmed(s)) == trimmed(s),
{
    let space = |c: char| white_space(c);
    lemma_stripped(s, space);
    lemma_stripped(trimmed(s), space);
    if trimmed(s).len() == 0 {
        assert(trimmed(s) =~= seq![]);
        assert(trimmed(trimmed(s)) =~= seq![]);
    }
}

// ---------------------------------------------------------------------------
// Challenges
// ---------------------------------------------------------------------------
/// How long a code stays valid, in nanoseconds.
pub const CODE_LIFETIME: u64 = PAIRING_CODE_TTL_MS * 1_000_000;

/// A pairing under way: the code that is shown and who may answer it. Instants
/// are nanoseconds.
#[derive(Debug)]
pub struct Challenge {
    pub code: String,
    pub expires_at: u64,
    pub attempts: u8,
    pub requester_id: String,
    pub requester_public_key: String,
}

pub struct ChallengeView {
    pub code: Seq<char>,
    pub expires_at: u64,
    pub attempts: u8,
    pub requester_id: Seq<char>,
    pub requester_public_key: Seq<char>,
}

impl View for Challenge {
    type V = ChallengeView;

    open spec fn view(&self) -> ChallengeView {
        ChallengeView {
            code: self.code@,
            expires_at: self.expires_at,
            attempts: self.attempts,
            requester_id: self.requester_id@,
            requester_public_key: self.requester_public_key@,
        }
    }
}

pub open spec fn challenge_view(slot: Option<Challenge>) -> Option<ChallengeView> {
    match slot {
        Some(challenge) => Some(challenge@),
        None => None,
    }
}

/// When a code that is shown now expires.
pub open spec fn expiry(now: u64) -> u64 {
    if now + CODE_LIFETIME > u64::MAX {
        u64::MAX
    } else {
        (now + CODE_LIFETIME) as u64
    }
}

/// Whether a peer may start a pairing: only a server may ask, and only while
/// no cluster was joined.
pub open spec fn may_pair(requester: LanPeerView, paired: bool) -> bool {
    requester.machine_role == "server"@ && !paired
}

/// Whether a request repeats the one that the shown code answers. The code then
/// stays on screen, so that nobody chases a number that changes while they type.
pub open spec fn repeats(slot: Option<ChallengeView>, requester: LanPeerView, now: u64) -> bool {
    match slot {
        Some(challenge) => challenge.expires_at > now && challenge.requester_id == requester.id
            && challenge.attempts == 0,
        None => false,
    }
}

/// What a request to pair leaves in the slot, where `code` is the next code.
pub open spec fn challenged(
    slot: Option<ChallengeView>,
    requester: LanPeerView,
    paired: bool,
    now: u64,
    code: Seq<char>,
) -> Option<ChallengeView> {
    if !may_pair(requester, paired) {
        slot
    } else if repeats(slot, requester, now) {
        Some(
            ChallengeView {
                requester_public_key: requester.transport_public_key,
                ..slot->0
            },
        )
    } else {
        Some(
            ChallengeView {
                code,
                expires_at: expiry(now),
                attempts: 0,
                requester_id: requester.id,
                requester_public_key: requester.transport_public_key,
            },
        )
    }
}

/// Answers a request to pair with the given code.
pub fn begin_challenge_with(
    slot: &mut Option<Challenge>,
    requester: &LanPeer,
    paired: bool,
    now: u64,
    code: String,
) -> (r: bool)
    ensures
        r == may_pair(requester@, paired),
        challenge_view(*final(slot)) == challenged(
            challenge_view(*old(slot)),
            requester@,
            paired,
            now,
            code@,
        ),
{
    if !same(requester.machine_role.as_str(), "server") || paired {
        return false;
    }
    let before = slot.take();
    if let Some(existing) = before {
        if existing.expires_at > now && same(
            existing.requester_id.as_str(),
            requester.id.as_str(),
        ) && existing.attempts == 0 {
            *slot = Some(
                Challenge {
                    code: existing.code,
                    expires_at: existing.expires_at,
                    attempts: existing.attempts,
                    requester_id: existing.requester_id,
                    requester_public_key: requester.transport_public_key.clone(),
                },
            );
            return true;
        }
    }
    let expires_at: u64 = if now > u64::MAX - CODE_LIFETIME {
        u64::MAX
    } else {
        now + CODE_LIFETIME
    };
    *slot = Some(
        Challenge {
            code,
            expires_at,
            attempts: 0,
            requester_id: requester.id.clone(),
            requester_public_key: requester.transport_public_key.clone(),
        },
    );
    true
}

/// Answers a request to pair by showing a code. `clock_ms` is the time of day,
/// for want of random numbers.
pub fn begin_challenge(
    slot: &mut Option<Challenge>,
    requester: &LanPeer,
    paired: bool,
    now: u64,
    clock_ms: u64,
) -> (r: bool)
    ensures
        r == may_pair(requester@, paired),
        exists|n: int|
            0 <= n < 1_000_000 && challenge_view(*final(slot)) == challenged(
                challenge_view(*old(slot)),
                requester@,
                paired,
                now,
                #[trigger] six_digits(n),
            ),
{
    let code = random_pairing_code(clock_ms);
    begin_challenge_with(slot, requester, paired, now, code)
}

/// The code that the user has to type, while it is valid.
pub open spec fn shown_code(slot: Option<ChallengeView>, now: u64) -> Option<Seq<char>> {
    match slot {
        Some(challenge) => if challenge.expires_at > now {
            Some(challenge.code)
        } else {
            None
        },
        None => None,
    }
}

pub fn pending_code(slot: &Option<Challenge>, now: u64) -> (r: Option<String>)
    ensures
        text_view(r) == shown_code(challenge_view(*slot), now),
{
    match slot {
        Some(challenge) => if challenge.expires_at > now {
            Some(challenge.code.clone())
        } else {
            None
        },
        None => None,
    }
}

/// Why a confirmation is refused.
#[derive(Debug, Clone, Copy, PartialEq, Eq, Structural)]
pub enum PairingError {
    Incomplete,
    NotInProgress,
    Expired,
    DifferentPeer,
    WrongCode,
}

impl PairingError {
    pub open spec fn named(self) -> Seq<char> {
        match self {
            PairingError::Incomplete => "confirmation is missing its code or cluster"@,
            PairingError::NotInProgress => "no pairing is in progress"@,
            PairingError::Expired => "the code expired"@,
            PairingError::DifferentPeer => "confirmation came from a different peer"@,
            PairingError::WrongCode => "wrong code"@,
        }
    }

    pub fn text(self) -> (r: &'static str)
        ensures
            r@ == self.named(),
    {
        match self {
            PairingError::Incomplete => "confirmation is missing its code or cluster",
            PairingError::NotInProgress => "no pairing is in progress",
            PairingError::Expired => "the code expired",
            PairingError::DifferentPeer => "confirmation came from a different peer",
            PairingError::WrongCode => "wrong code",
        }
    }
}

/// The text of a field that may be absent.
pub open spec fn or_empty(text: Option<Seq<char>>) -> Seq<char> {
    match text {
        Some(text) => text,
        None => seq![],
    }
}

/// Whether a confirmation carries a code, a cluster and a secret.
pub open spec fn complete(packet: DiscoveryPacketView) -> bool {
    !blank(or_empty(packet.pairing_code)) && !blank(or_empty(packet.pair_cluster_id)) && !blank(
        or_empty(packet.pair_secret),
    )
}

/// Whether a confirmation comes from the peer that the code was issued to.
pub open spec fn answers(challenge: ChallengeView, packet: DiscoveryPacketView) -> bool {
    &&& challenge.requester_id == packet.peer.id
    &&& blank(challenge.requester_public_key) || challenge.requester_public_key
        == packet.peer.transport_public_key
}

/// What a confirmation leaves in the slot, and the membership that it grants.
/// A handful of wrong codes throws the challenge away.
pub open spec fn confirmed(
    slot: Option<ChallengeView>,
    packet: DiscoveryPacketView,
    now: u64,
) -> (Option<ChallengeView>, Result<MembershipView, PairingError>) {
    if !complete(packet) {
        (slot, Err(PairingError::Incomplete))
    } else {
        match slot {
            None => (slot, Err(PairingError::NotInProgress)),
            Some(challenge) => if challenge.expires_at <= now {
                (None, Err(PairingError::Expired))
            } else if !answers(challenge, packet) {
                (slot, Err(PairingError::DifferentPeer))
            } else if challenge.code != trimmed(or_empty(packet.pairing_code)) {
                let attempts = if challenge.attempts == u8::MAX {
                    u8::MAX
                } else {
                    (challenge.attempts + 1) as u8
                };
                if attempts >= PAIRING_MAX_ATTEMPTS {
                    (None, Err(PairingError::WrongCode))
                } else {
                    (Some(ChallengeView { attempts, ..challenge }), Err(PairingError::WrongCode))
                }
            } else {
                (
                    None,
                    Ok(
                        MembershipView {
                            cluster_id: trimmed(or_empty(packet.pair_cluster_id)),
                            pair_secret: trimmed(or_empty(packet.pair_secret)),
                        },
                    ),
                )
            },
        }
    }
}

pub open spec fn granted(r: Result<Membership, PairingError>) -> Result<
    MembershipView,
    PairingError,
> {
    match r {
        Ok(membership) => Ok(membership@),
        Err(error) => Err(error),
    }
}

fn text_or_empty(text: &Option<String>) -> (r: String)
    ensures
        r@ == or_empty(text_view(*text)),
{
    match text {
        Some(text) => text.clone(),
        None => {
            let empty = String::new();
            assert(empty@ =~= seq![]);
            empty
        },
    }
}

/// Checks a confirmation. The membership that it grants is in force once it has
/// been saved.
pub fn complete_pairing(slot: &mut Option<Challenge>, packet: &DiscoveryPacket, now: u64) -> (r:
    Result<Membership, PairingError>)
    ensures
        (challenge_view(*final(slot)), granted(r)) == confirmed(
            challenge_view(*old(slot)),
            packet@,
            now,
        ),
{
    let code = text_or_empty(&packet.pairing_code);
    let cluster_id = text_or_empty(&packet.pair_cluster_id);
    let secret = text_or_empty(&packet.pair_secret);
    if is_blank(code.as_str()) || is_blank(cluster_id.as_str()) || is_blank(secret.as_str()) {
        return Err(PairingError::Incomplete);
    }
    let before = slot.take();
    match before {
        None => Err(PairingError::NotInProgress),
        Some(existing) => {
            if existing.expires_at <= now {
                return Err(PairingError::Expired);
            }
            if !same(existing.requester_id.as_str(), packet.peer.id.as_str()) || (!is_blank(
                existing.requester_public_key.as_str(),
            ) && !same(
                existing.requester_public_key.as_str(),
                packet.peer.transport_public_key.as_str(),
            )) {
                *slot = Some(existing);
                return Err(PairingError::DifferentPeer);
            }
            if !same(existing.code.as_str(), trim(code.as_str())) {
                let attempts: u8 = if existing.attempts == u8::MAX {
                    u8::MAX
                } else {
                    existing.attempts + 1
                };
                if attempts < PAIRING_MAX_ATTEMPTS {
                    *slot = Some(
                        Challenge {
                            code: existing.code,
                            expires_at: existing.expires_at,
                            attempts,
                            requester_id: existing.requester_id,
                            requester_public_key: existing.requester_public_key,
                        },
                    );
                }
                return Err(PairingError::WrongCode);
            }
            Ok(
                Membership {
                    cluster_id: trim(cluster_id.as_str()).to_string(),
                    pair_secret: trim(secret.as_str()).to_string(),
                },
            )
        },
    }
}

/// Whether a challenge has guesses left.
pub open spec fn guessable(slot: Option<ChallengeView>) -> bool {
    match slot {
        Some(challenge) => challenge.attempts < PAIRING_MAX_ATTEMPTS,
        None => true,
    }
}

/// A challenge that is kept always has guesses left, and a wrong guess uses one
/// up: nobody hunts for six digits without end.
pub proof fn law_guesses_run_out(
    slot: Option<ChallengeView>,
    packet: DiscoveryPacketView,
    requester: LanPeerView,
    paired: bool,
    now: u64,
    code: Seq<char>,
)
    requires
        guessable(slot),
    ensures
        guessable(challenged(slot, requester, paired, now, code)),
        guessable(confirmed(slot, packet, now).0),
        confirmed(slot, packet, now).1 == Err::<MembershipView, PairingError>(
            PairingError::WrongCode,
        ) ==> match confirmed(slot, packet, now).0 {
            Some(challenge) => slot is Some && challenge.attempts == slot->0.attempts + 1,
            None => true,
        },
{
}

/// A cluster is joined only with the code that was shown, by the peer that it
/// was issued to, while it is valid; and a code serves once.
pub proof fn law_only_the_shown_code_pairs(
    slot: Option<ChallengeView>,
    packet: DiscoveryPacketView,
    now: u64,
)
    requires
        confirmed(slot, packet, now).1 is Ok,
    ensures
        slot is Some,
        shown_code(slot, now) == Some(trimmed(or_empty(packet.pairing_code))),
        slot->0.requester_id == packet.peer.id,
        confirmed(slot, packet, now).0 is None,
        (confirmed(slot, packet, now).1->Ok_0).paired(),
{
    let membership = confirmed(slot, packet, now).1->Ok_0;
    law_trimmed_texts_stay_trimmed(or_empty(packet.pair_cluster_id));
    law_trimmed_texts_stay_trimmed(or_empty(packet.pair_secret));
}

/// The confirmation that answers a request is accepted: the code that is shown,
/// sent back in time by the peer that asked, pairs.
pub proof fn law_the_right_code_pairs(
    slot: Option<ChallengeView>,
    requester: LanPeerView,
    asked_at: u64,
    code: Seq<char>,
    packet: DiscoveryPacketView,
    now: u64,
)
    requires
        requester.machine_role == "server"@,
        !repeats(slot, requester, asked_at),
        asked_at <= now < expiry(asked_at),
        complete(packet),
        packet.peer == requester,
        trimmed(or_empty(packet.pairing_code)) == code,
    ensures
        confirmed(challenged(slot, requester, false, asked_at, code), packet, now).1 is Ok,
{
}

/// A repeated request from the same server keeps the code, and only a server
/// may ask, while no cluster was joined.
pub proof fn law_requests_keep_the_code(
    slot: Option<ChallengeView>,
    requester: LanPeerView,
    paired: bool,
    now: u64,
    code: Seq<char>,
)
    ensures
        repeats(slot, requester, now) ==> shown_code(
            challenged(slot, requester, paired, now, code),
            now,
        ) == shown_code(slot, now),
        !may_pair(requester, paired) ==> challenged(slot, requester, paired, now, code) == slot,
{
}

} // verus!
