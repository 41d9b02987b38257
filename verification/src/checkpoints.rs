//! Checkpoints of a context: their order, and how one is taken.

use vstd::prelude::*;

use crate::artifacts::{Ask, ContextReply, ContextRequest, PutArtifact};
use crate::context::{
    ArtifactRef, CheckpointData, ContextCheckpoint, ContextRepository, ContextScope, CoreContext,
};
use crate::error::OrchestratorError;
use crate::files::StorePath;

verus! {

/// `a` stands before `b` in the order of names, byte by byte.
pub open spec fn before(a: Seq<u8>, b: Seq<u8>) -> bool
    decreases a.len(),
{
    if b.len() == 0 {
        false
    } else if a.len() == 0 {
        true
    } else if a[0] != b[0] {
        a[0] < b[0]
    } else {
        before(a.drop_first(), b.drop_first())
    }
}

/// `name` is the last of the names in their order.
pub open spec fn is_latest(names: Seq<Seq<u8>>, name: Seq<u8>) -> bool {
    &&& names.contains(name)
    &&& forall|i: int| 0 <= i < names.len() ==> !before(name, #[trigger] names[i])
}

/// The names that the listing holds.
pub open spec fn names_of(listing: Seq<Vec<u8>>) -> Seq<Seq<u8>> {
    listing.map_values(|name: Vec<u8>| name@)
}

/// Tells whether `a` stands before `b` in the order of names.
pub fn precedes(a: &Vec<u8>, b: &Vec<u8>) -> (r: bool)
    ensures
        r == before(a@, b@),
{
    let mut i: usize = 0;
    assert(a@.skip(0) =~= a@);
    assert(b@.skip(0) =~= b@);
    while i < a.len() && i < b.len()
        invariant
            i <= a.len(),
            i <= b.len(),
            before(a@, b@) == before(a@.skip(i as int), b@.skip(i as int)),
        decreases a.len() - i,
    {
        if a[i] != b[i] {
            return a[i] < b[i];
        }
        assert(a@.skip(i as int).drop_first() =~= a@.skip(i + 1));
        assert(b@.skip(i as int).drop_first() =~= b@.skip(i + 1));
        i = i + 1;
    }
    i < b.len()
}

proof fn lemma_before_is_transitive(a: Seq<u8>, b: Seq<u8>, c: Seq<u8>)
    requires
        before(a, b),
        before(b, c),
    ensures
        before(a, c),
    decreases a.len(),
{
    if a.len() > 0 && b.len() > 0 && c.len() > 0 && a[0] == b[0] && b[0] == c[0] {
        lemma_before_is_transitive(a.drop_first(), b.drop_first(), c.drop_first());
    }
}

proof fn lemma_before_is_irreflexive(a: Seq<u8>)
    ensures
        !before(a, a),
    decreases a.len(),
{
    if a.len() > 0 {
        lemma_before_is_irreflexive(a.drop_first());
    }
}

/// Of two different names, one stands before the other.
pub proof fn names_are_totally_ordered(a: Seq<u8>, b: Seq<u8>)
    ensures
        before(a, b) || before(b, a) || a == b,
    decreases a.len(),
{
    if a.len() > 0 && b.len() > 0 && a[0] == b[0] {
        names_are_totally_ordered(a.drop_first(), b.drop_first());
        if a.drop_first() == b.drop_first() {
            assert(a =~= seq![a[0]] + a.drop_first());
            assert(b =~= seq![b[0]] + b.drop_first());
        }
    } else if a.len() == 0 && b.len() == 0 {
        assert(a =~= b);
    }
}

/// The place of the last of the names in their order; there is one unless there are no names.
pub fn latest_entry(names: &Vec<Vec<u8>>) -> (r: Option<usize>)
    ensures
        r is None <==> names@.len() == 0,
        r matches Some(i) ==> i < names@.len() && is_latest(
            names_of(names@),
            names_of(names@)[i as int],
        ),
        r matches Some(i) ==> forall|j: int|
            0 <= j < names@.len() ==> (#[trigger] names@[j])@ == names@[i as int]@ || before(
                names@[j]@,
                names@[i as int]@,
            ),
{
    if names.len() == 0 {
        return None;
    }
    let mut best: usize = 0;
    let mut i: usize = 1;
    proof {
        lemma_before_is_irreflexive(names@[0]@);
    }
    while i < names.len()
        invariant
            best < i <= names.len(),
            forall|j: int|
                0 <= j < i ==> !before(names@[best as int]@, #[trigger] names_of(names@)[j]),
        decreases names.len() - i,
    {
        if precedes(&names[best], &names[i]) {
            proof {
                lemma_before_is_irreflexive(names@[i as int]@);
                assert forall|j: int| 0 <= j < i + 1 implies !before(
                    names@[i as int]@,
                    #[trigger] names_of(names@)[j],
                ) by {
                    if before(names@[i as int]@, names_of(names@)[j]) {
                        lemma_before_is_transitive(
                            names@[best as int]@,
                            names@[i as int]@,
                            names_of(names@)[j],
                        );
                    }
                }
            }
            best = i;
        }
        i = i + 1;
    }
    assert(names_of(names@)[best as int] == names@[best as int]@);
    assert forall|j: int| 0 <= j < names@.len() implies (#[trigger] names@[j])@
        == names@[best as int]@ || before(names@[j]@, names@[best as int]@) by {
        assert(!before(names@[best as int]@, names_of(names@)[j]));
        names_are_totally_ordered(names@[j]@, names@[best as int]@);
    }
    Some(best)
}

/// Taking a checkpoint: the raw history is stored as an artifact, and the checkpoint is
/// written under the number after the count of what its directory holds.
#[derive(Debug)]
pub enum TakeCheckpoint {
    ReadingCore { scope: ContextScope, data: CheckpointData, raw: Vec<u8> },
    StoringHistory {
        scope: ContextScope,
        data: CheckpointData,
        core: CoreContext,
        put: PutArtifact,
    },
    CreatingDirectory {
        scope: ContextScope,
        data: CheckpointData,
        core: CoreContext,
        history: ArtifactRef,
    },
    Counting {
        scope: ContextScope,
        data: CheckpointData,
        core: CoreContext,
        history: ArtifactRef,
    },
    Writing { checkpoint: ContextCheckpoint },
    Finished(Result<ContextCheckpoint, OrchestratorError>),
}

/// The directory of a scope's checkpoints.
fn checkpoints_path(scope: &ContextScope) -> (r: StorePath)
    ensures
        r@ == crate::context::checkpoints_directory(*scope),
{
    crate::context::scope_path(scope).join("checkpoints")
}

/// The storing of a raw history, when it begins.
pub open spec fn stores_history(put: PutArtifact, raw: Seq<u8>) -> bool {
    put.begins("raw_chat_history"@, "uncompressed pre-checkpoint history"@, raw, None)
}

impl TakeCheckpoint {
    /// What the operation asks for.
    pub open spec fn asks(self) -> Option<Ask> {
        match self {
            TakeCheckpoint::ReadingCore { scope, data, raw } => Some(
                Ask::ReadCore(crate::context::core_location(scope)),
            ),
            TakeCheckpoint::StoringHistory { scope, data, core, put } => put.asks(),
            TakeCheckpoint::CreatingDirectory { scope, data, core, history } => Some(
                Ask::CreateDirectory(crate::context::checkpoints_directory(scope)),
            ),
            TakeCheckpoint::Counting { scope, data, core, history } => Some(
                Ask::ListDirectory(crate::context::checkpoints_directory(scope)),
            ),
            TakeCheckpoint::Writing { checkpoint } => Some(
                Ask::WriteCheckpoint(
                    crate::context::checkpoint_location(checkpoint.scope, checkpoint.sequence),
                    checkpoint,
                ),
            ),
            TakeCheckpoint::Finished(_) => None,
        }
    }

    /// `next` is where `reply` takes the operation.
    pub open spec fn leads_to(self, reply: ContextReply, next: TakeCheckpoint) -> bool {
        match (self, reply) {
            (_, ContextReply::Failed(e)) => next == TakeCheckpoint::Finished(Err(e)),
            (TakeCheckpoint::ReadingCore { scope, data, raw }, ContextReply::Core(core)) => {
                &&& next matches TakeCheckpoint::StoringHistory { scope: s, data: d, core: c, put }
                &&& s == scope && d == data && c == core
                &&& stores_history(put, raw@)
            },
            (TakeCheckpoint::StoringHistory { scope, data, core, put }, _) => match put.after(
                reply,
            ) {
                PutArtifact::Finished(Ok(history)) => next == (TakeCheckpoint::CreatingDirectory {
                    scope,
                    data,
                    core,
                    history,
                }),
                PutArtifact::Finished(Err(e)) => next == TakeCheckpoint::Finished(Err(e)),
                put => next == (TakeCheckpoint::StoringHistory { scope, data, core, put }),
            },
            (
                TakeCheckpoint::CreatingDirectory { scope, data, core, history },
                ContextReply::Done,
            ) => next == (TakeCheckpoint::Counting { scope, data, core, history }),
            (
                TakeCheckpoint::Counting { scope, data, core, history },
                ContextReply::Entries(names),
            ) => next == (TakeCheckpoint::Writing {
                checkpoint: ContextCheckpoint {
                    sequence: (names@.len() + 1) as u64,
                    scope,
                    specification_version_id: core.specification_version_id,
                    specification_hash: core.specification_hash,
                    raw_history: history,
                    data,
                },
            }),
            (TakeCheckpoint::Writing { checkpoint }, ContextReply::Done) => next
                == TakeCheckpoint::Finished(Ok(checkpoint)),
            _ => next == self,
        }
    }

    /// What the operation asks for; nothing, once it is finished.
    pub fn request(&self) -> (r: Option<ContextRequest<'_>>)
        ensures
            match r {
                Some(request) => self.asks() == Some(request@),
                None => self.asks() is None,
            },
    {
        match self {
            TakeCheckpoint::ReadingCore { scope, data: _, raw: _ } => Some(
                ContextRequest::ReadCore {
                    path: crate::context::scope_path(scope).join("core.json"),
                },
            ),
            TakeCheckpoint::StoringHistory { scope: _, data: _, core: _, put } => put.request(),
            TakeCheckpoint::CreatingDirectory { scope, data: _, core: _, history: _ } => Some(
                ContextRequest::CreateDirectory { path: checkpoints_path(scope) },
            ),
            TakeCheckpoint::Counting { scope, data: _, core: _, history: _ } => Some(
                ContextRequest::ListDirectory { path: checkpoints_path(scope) },
            ),
            TakeCheckpoint::Writing { checkpoint } => {
                let name = crate::text::padded_text(checkpoint.sequence, 20).concat(".json");
                Some(
                    ContextRequest::WriteCheckpoint {
                        path: checkpoints_path(&checkpoint.scope).join(name.as_str()),
                        checkpoint,
                    },
                )
            },
            TakeCheckpoint::Finished(_) => None,
        }
    }

    /// Moves the operation on by the answer to what it asked for.
    pub fn advance(self, reply: ContextReply) -> (r: TakeCheckpoint)
        requires
            self.asks() matches Some(ask) && ask.is_answered_by(reply),
            reply matches ContextReply::Entries(names) ==> names@.len() < u64::MAX,
        ensures
            self.leads_to(reply, r),
    {
        match (self, reply) {
            (TakeCheckpoint::StoringHistory { scope, data, core, put }, reply) => {
                match put.advance(reply) {
                    PutArtifact::Finished(Ok(history)) => TakeCheckpoint::CreatingDirectory {
                        scope,
                        data,
                        core,
                        history,
                    },
                    PutArtifact::Finished(Err(e)) => TakeCheckpoint::Finished(Err(e)),
                    put => TakeCheckpoint::StoringHistory { scope, data, core, put },
                }
            },
            (_, ContextReply::Failed(e)) => TakeCheckpoint::Finished(Err(e)),
            (TakeCheckpoint::ReadingCore { scope, data, raw }, ContextReply::Core(core)) => {
                let put = PutArtifact::begin(
                    "raw_chat_history".to_owned(),
                    "uncompressed pre-checkpoint history".to_owned(),
                    raw,
                    None,
                );
                TakeCheckpoint::StoringHistory { scope, data, core, put }
            },
            (
                TakeCheckpoint::CreatingDirectory { scope, data, core, history },
                ContextReply::Done,
            ) => TakeCheckpoint::Counting { scope, data, core, history },
            (
                TakeCheckpoint::Counting { scope, data, core, history },
                ContextReply::Entries(names),
            ) => {
                let sequence = names.len() as u64 + 1;
                TakeCheckpoint::Writing {
                    checkpoint: ContextCheckpoint {
                        sequence,
                        scope,
                        specification_version_id: core.specification_version_id,
                        specification_hash: core.specification_hash,
                        raw_history: history,
                        data,
                    },
                }
            },
            (TakeCheckpoint::Writing { checkpoint }, ContextReply::Done) => {
                TakeCheckpoint::Finished(Ok(checkpoint))
            },
            (unfinished, _) => unfinished,
        }
    }
}

impl ContextRepository {
    /// Begins to take a checkpoint of the scope's context, with its raw history.
    pub fn checkpoint(&self, scope: &ContextScope, data: CheckpointData, raw: Vec<u8>) -> (r:
        TakeCheckpoint)
        ensures
            r == (TakeCheckpoint::ReadingCore { scope: *scope, data, raw }),
    {
        TakeCheckpoint::ReadingCore { scope: *scope, data, raw }
    }
}

/// 10 to the power of `n`.
spec fn ten_to(n: nat) -> nat
    decreases n,
{
    if n == 0 {
        1
    } else {
        10 * ten_to((n - 1) as nat)
    }
}

/// The characters as bytes.
spec fn ascii(s: Seq<char>) -> Seq<u8> {
    s.map_values(|c: char| c as u8)
}

proof fn lemma_before_extends(a: Seq<u8>, b: Seq<u8>, s: Seq<u8>, t: Seq<u8>)
    requires
        a.len() == b.len(),
        before(a, b),
    ensures
        before(a + s, b + t),
    decreases a.len(),
{
    assert((a + s)[0] == a[0] && (b + t)[0] == b[0]);
    if a[0] == b[0] {
        lemma_before_extends(a.drop_first(), b.drop_first(), s, t);
        assert((a + s).drop_first() =~= a.drop_first() + s);
        assert((b + t).drop_first() =~= b.drop_first() + t);
    }
}

proof fn lemma_before_after_prefix(a: Seq<u8>, s: Seq<u8>, t: Seq<u8>)
    ensures
        before(a + s, a + t) == before(s, t),
    decreases a.len(),
{
    if a.len() == 0 {
        assert(a + s =~= s);
        assert(a + t =~= t);
    } else {
        lemma_before_after_prefix(a.drop_first(), s, t);
        assert((a + s).drop_first() =~= a.drop_first() + s);
        assert((a + t).drop_first() =~= a.drop_first() + t);
    }
}

proof fn lemma_padded_length(n: nat, width: nat)
    ensures
        crate::text::padded_decimal(n, width).len() == width,
        forall|i: int|
            0 <= i < width ==> '0' <= #[trigger] crate::text::padded_decimal(n, width)[i] <= '9',
    decreases width,
{
    if width > 0 {
        lemma_padded_length(n / 10, (width - 1) as nat);
    }
}

proof fn lemma_padded_order(a: nat, b: nat, width: nat)
    requires
        a < b < ten_to(width),
    ensures
        before(
            ascii(crate::text::padded_decimal(a, width)),
            ascii(crate::text::padded_decimal(b, width)),
        ),
    decreases width,
{
    let w = (width - 1) as nat;
    let x = ascii(crate::text::padded_decimal(a / 10, w));
    let y = ascii(crate::text::padded_decimal(b / 10, w));
    let p = seq![crate::text::digit((a % 10) as int) as u8];
    let q = seq![crate::text::digit((b % 10) as int) as u8];
    assert(ascii(crate::text::padded_decimal(a, width)) =~= x + p);
    assert(ascii(crate::text::padded_decimal(b, width)) =~= y + q);
    lemma_padded_length(a / 10, w);
    lemma_padded_length(b / 10, w);
    if a / 10 < b / 10 {
        lemma_padded_order(a / 10, b / 10, w);
        lemma_before_extends(x, y, p, q);
    } else {
        assert(a / 10 == b / 10);
        lemma_before_after_prefix(x, p, q);
        assert(before(p, q));
    }
}

/// The bytes of a checkpoint's file name.
pub open spec fn checkpoint_name_bytes(sequence: u64) -> Seq<u8> {
    vstd::utf8::encode_utf8(crate::context::checkpoint_name(sequence))
}

proof fn lemma_checkpoint_name_is_ascii(sequence: u64)
    ensures
        checkpoint_name_bytes(sequence) == ascii(crate::context::checkpoint_name(sequence)),
        checkpoint_name_bytes(sequence).len() == 25,
        48 <= checkpoint_name_bytes(sequence)[0] <= 57,
{
    let name = crate::context::checkpoint_name(sequence);
    lemma_padded_length(sequence as nat, 20);
    reveal_strlit(".json");
    assert(vstd::utf8::is_ascii_chars(name));
    vstd::utf8::is_ascii_chars_encode_utf8(name);
    assert(checkpoint_name_bytes(sequence) =~= ascii(name));
    assert('0' <= crate::text::padded_decimal(sequence as nat, 20)[0] <= '9');
    assert(name[0] == crate::text::padded_decimal(sequence as nat, 20)[0]);
}

/// The order of the file names is the order of the sequence numbers.
pub proof fn checkpoint_names_are_ordered_by_sequence(a: u64, b: u64)
    ensures
        before(checkpoint_name_bytes(a), checkpoint_name_bytes(b)) == (a < b),
{
    lemma_checkpoint_name_is_ascii(a);
    lemma_checkpoint_name_is_ascii(b);
    assert(ten_to(20) == 100000000000000000000) by {
        reveal_with_fuel(ten_to, 21);
    }
    let x = ascii(crate::text::padded_decimal(a as nat, 20));
    let y = ascii(crate::text::padded_decimal(b as nat, 20));
    let suffix = ascii(".json"@);
    assert(checkpoint_name_bytes(a) =~= x + suffix);
    assert(checkpoint_name_bytes(b) =~= y + suffix);
    lemma_padded_length(a as nat, 20);
    lemma_padded_length(b as nat, 20);
    if a < b {
        lemma_padded_order(a as nat, b as nat, 20);
        lemma_before_extends(x, y, suffix, suffix);
    } else if b < a {
        lemma_padded_order(b as nat, a as nat, 20);
        lemma_before_extends(y, x, suffix, suffix);
        if before(checkpoint_name_bytes(a), checkpoint_name_bytes(b)) {
            lemma_before_is_transitive(
                checkpoint_name_bytes(a),
                checkpoint_name_bytes(b),
                checkpoint_name_bytes(a),
            );
            lemma_before_is_irreflexive(checkpoint_name_bytes(a));
        }
    } else {
        lemma_before_is_irreflexive(checkpoint_name_bytes(a));
    }
}

/// The directory holds checkpoints numbered no higher than it has entries, and files whose
/// names start with a dot, such as a write that was cut short leaves.
pub open spec fn is_numbered(names: Seq<Seq<u8>>) -> bool {
    forall|i: int|
        0 <= i < names.len() ==> {
            ||| (#[trigger] names[i]).len() > 0 && names[i][0] == 46
            ||| exists|k: u64|
                1 <= k <= names.len() && names[i] == #[trigger] checkpoint_name_bytes(k)
        }
}

/// The checkpoint that is taken is the latest from then on: its number is higher than any in
/// its directory, its name stands behind all others, and the numbering goes on from there.
pub proof fn the_checkpoint_taken_is_the_latest(names: Seq<Seq<u8>>, sequence: u64)
    requires
        is_numbered(names),
        sequence == names.len() + 1,
    ensures
        !names.contains(checkpoint_name_bytes(sequence)),
        is_latest(
            names.push(checkpoint_name_bytes(sequence)),
            checkpoint_name_bytes(sequence),
        ),
        is_numbered(names.push(checkpoint_name_bytes(sequence))),
{
    let new = checkpoint_name_bytes(sequence);
    let all = names.push(new);
    lemma_checkpoint_name_is_ascii(sequence);
    lemma_before_is_irreflexive(new);
    assert forall|i: int| 0 <= i < names.len() implies !before(new, names[i]) && names[i]
        != new by {
        if !(names[i].len() > 0 && names[i][0] == 46) {
            let k = choose|k: u64|
                1 <= k <= names.len() && names[i] == #[trigger] checkpoint_name_bytes(k);
            checkpoint_names_are_ordered_by_sequence(k, sequence);
            checkpoint_names_are_ordered_by_sequence(sequence, k);
        }
    }
    assert(all.contains(new)) by {
        assert(all[names.len() as int] == new);
    }
    assert forall|i: int| 0 <= i < all.len() implies !before(new, #[trigger] all[i]) by {
        if i < names.len() {
            assert(all[i] == names[i]);
        }
    }
    assert forall|i: int| 0 <= i < all.len() implies {
        ||| (#[trigger] all[i]).len() > 0 && all[i][0] == 46
        ||| exists|k: u64| 1 <= k <= all.len() && all[i] == #[trigger] checkpoint_name_bytes(k)
    } by {
        if i < names.len() {
            assert(all[i] == names[i]);
            if !(names[i].len() > 0 && names[i][0] == 46) {
                let k = choose|k: u64|
                    1 <= k <= names.len() && names[i] == #[trigger] checkpoint_name_bytes(k);
                assert(1 <= k <= all.len() && all[i] == checkpoint_name_bytes(k));
            }
        } else {
            assert(all[i] == checkpoint_name_bytes(sequence));
        }
    }
}

/// `a` and `b` differ first at `place`, where `a` has the smaller byte or none.
pub open spec fn differs_first_at(a: Seq<u8>, b: Seq<u8>, place: int) -> bool {
    &&& 0 <= place <= a.len() && place < b.len()
    &&& forall|i: int| 0 <= i < place ==> #[trigger] a[i] == b[i]
    &&& place < a.len() ==> a[place] < b[place]
}

/// Of two names, the one with the smaller byte at the first place where they differ stands before
/// the other, and so does one that the other begins with.
pub proof fn names_are_ordered_by_their_first_difference(a: Seq<u8>, b: Seq<u8>)
    ensures
        before(a, b) <==> exists|place: int| #[trigger] differs_first_at(a, b, place),
    decreases a.len(),
{
    if b.len() > 0 && a.len() == 0 {
        assert(differs_first_at(a, b, 0));
    } else if b.len() > 0 && a[0] < b[0] {
        assert(differs_first_at(a, b, 0));
    } else if b.len() > 0 && a[0] == b[0] {
        let x = a.drop_first();
        let y = b.drop_first();
        names_are_ordered_by_their_first_difference(x, y);
        if before(x, y) {
            let p = choose|p: int| #[trigger] differs_first_at(x, y, p);
            assert forall|i: int| 0 <= i < p + 1 implies #[trigger] a[i] == b[i] by {
                if i > 0 {
                    assert(x[i - 1] == y[i - 1]);
                }
            }
            assert(differs_first_at(a, b, p + 1));
        }
        if exists|p: int| #[trigger] differs_first_at(a, b, p) {
            let p = choose|p: int| #[trigger] differs_first_at(a, b, p);
            assert forall|i: int| 0 <= i < p - 1 implies #[trigger] x[i] == y[i] by {
                assert(a[i + 1] == b[i + 1]);
            }
            assert(differs_first_at(x, y, p - 1));
        }
    } else if b.len() > 0 {
        assert forall|p: int| !(#[trigger] differs_first_at(a, b, p)) by {
            if differs_first_at(a, b, p) && p > 0 {
                assert(a[0] == b[0]);
            }
        }
    }
}

/// The last of the names is one of them, and all others stand before it.
pub proof fn the_latest_name_is_behind_all_others(names: Seq<Seq<u8>>, name: Seq<u8>)
    ensures
        is_latest(names, name) <==> names.contains(name) && forall|i: int|
            0 <= i < names.len() ==> #[trigger] names[i] == name || before(names[i], name),
{
    if is_latest(names, name) {
        assert forall|i: int| 0 <= i < names.len() implies #[trigger] names[i] == name || before(
            names[i],
            name,
        ) by {
            names_are_totally_ordered(names[i], name);
        }
    } else if names.contains(name) {
        let i = choose|i: int| 0 <= i < names.len() && before(name, #[trigger] names[i]);
        if names[i] == name {
            lemma_before_is_irreflexive(name);
        } else if before(names[i], name) {
            lemma_before_is_transitive(name, names[i], name);
            lemma_before_is_irreflexive(name);
        }
    }
}

/// The names are those of the listing, one for one.
pub proof fn names_are_those_of_the_listing(listing: Seq<Vec<u8>>)
    ensures
        names_of(listing).len() == listing.len(),
        forall|i: int| 0 <= i < listing.len() ==> #[trigger] names_of(listing)[i] == listing[i]@,
{
}

/// The taking of a checkpoint goes on by the answers: the core context that was read is the one
/// whose specification the checkpoint carries, the history goes into the store as it is, the
/// number is one more than the directory has entries, and the checkpoint that is written is the
/// one that is given back. A failure ends it with that failure.
pub proof fn a_checkpoint_goes_on_by_the_answers(
    state: TakeCheckpoint,
    reply: ContextReply,
    next: TakeCheckpoint,
)
    requires
        state.leads_to(reply, next),
    ensures
        match (state, reply) {
            (_, ContextReply::Failed(e)) => next == TakeCheckpoint::Finished(Err(e)),
            (TakeCheckpoint::ReadingCore { scope, data, raw }, ContextReply::Core(core)) => {
                let hex = crate::text::lower_hex(crate::artifacts::sha256_digest(raw@)@);
                &&& next matches TakeCheckpoint::StoringHistory { scope: s, data: d, core: c, put }
                &&& s == scope && d == data && c == core
                &&& put matches PutArtifact::Checking { path, bytes, reference }
                &&& path@ == seq!["artifacts"@, "sha256"@, hex]
                &&& bytes@ == raw@
                &&& reference.hash@ == "sha256:"@ + hex
                &&& reference.kind@ == "raw_chat_history"@
                &&& reference.summary@ == "uncompressed pre-checkpoint history"@
                &&& reference.line_range is None
                &&& reference.byte_len == raw@.len()
            },
            (
                TakeCheckpoint::StoringHistory {
                    scope,
                    data,
                    core,
                    put: PutArtifact::Checking { path, bytes, reference },
                },
                ContextReply::Exists(there),
            ) => if there {
                next == (TakeCheckpoint::CreatingDirectory { scope, data, core, history: reference })
            } else {
                next == (TakeCheckpoint::StoringHistory {
                    scope,
                    data,
                    core,
                    put: PutArtifact::Writing { path, bytes, reference },
                })
            },
            (
                TakeCheckpoint::StoringHistory {
                    scope,
                    data,
                    core,
                    put: PutArtifact::Writing { path, bytes, reference },
                },
                ContextReply::Done,
            ) => next == (TakeCheckpoint::CreatingDirectory {
                scope,
                data,
                core,
                history: reference,
            }),
            (
                TakeCheckpoint::CreatingDirectory { scope, data, core, history },
                ContextReply::Done,
            ) => next == (TakeCheckpoint::Counting { scope, data, core, history }),
            (
                TakeCheckpoint::Counting { scope, data, core, history },
                ContextReply::Entries(names),
            ) => names@.len() < u64::MAX ==> {
                &&& next matches TakeCheckpoint::Writing { checkpoint }
                &&& checkpoint.sequence == names@.len() + 1
                &&& checkpoint.scope == scope
                &&& checkpoint.specification_version_id == core.specification_version_id
                &&& checkpoint.specification_hash == core.specification_hash
                &&& checkpoint.raw_history == history
                &&& checkpoint.data == data
            },
            (TakeCheckpoint::Writing { checkpoint }, ContextReply::Done) => next
                == TakeCheckpoint::Finished(Ok(checkpoint)),
            _ => true,
        },
{
    if let TakeCheckpoint::ReadingCore { scope, data, raw } = state {
        crate::artifacts::a_content_is_kept_under_its_digest(raw@);
    }
}

/// The taking of a checkpoint asks for its scope's core context, for the history's artifact, and
/// for its scope's directory of checkpoints, and writes the checkpoint there under its number.
pub proof fn a_checkpoint_asks_for_its_places(
    scope: ContextScope,
    data: CheckpointData,
    raw: Vec<u8>,
    core: CoreContext,
    history: ArtifactRef,
    put: PutArtifact,
    checkpoint: ContextCheckpoint,
)
    ensures
        (TakeCheckpoint::ReadingCore { scope, data, raw }).asks() == Some(
            Ask::ReadCore(crate::context::scope_directory(scope).push("core.json"@)),
        ),
        (TakeCheckpoint::StoringHistory { scope, data, core, put }).asks() == put.asks(),
        (TakeCheckpoint::CreatingDirectory { scope, data, core, history }).asks() == Some(
            Ask::CreateDirectory(crate::context::scope_directory(scope).push("checkpoints"@)),
        ),
        (TakeCheckpoint::Counting { scope, data, core, history }).asks() == Some(
            Ask::ListDirectory(crate::context::scope_directory(scope).push("checkpoints"@)),
        ),
        (TakeCheckpoint::Writing { checkpoint }).asks() == Some(
            Ask::WriteCheckpoint(
                crate::context::scope_directory(checkpoint.scope).push("checkpoints"@).push(
                    crate::context::checkpoint_name(checkpoint.sequence),
                ),
                checkpoint,
            ),
        ),
        forall|result: Result<ContextCheckpoint, OrchestratorError>|
            (#[trigger] TakeCheckpoint::Finished(result).asks()) is None,
{
}

} // verus!
