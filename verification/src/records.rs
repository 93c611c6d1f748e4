//! The credentials of a vault as a sequence of plain values: what it means
//! to find, store and remove one, which files mirror them, and the laws
//! that these operations obey.

use vstd::prelude::*;
use rsa::RsaPrivateKey;
use crate::errs::KeyBoxErr;
use crate::key::answers;
use crate::key::key_file_text;
use crate::key::lemma_key_file_injective;
use crate::key::Key;
use crate::key::KeyView;
use crate::main_key::opened_text;
use crate::text::occurs_at;

verus! {


/// The views of a list of credentials, in order.
pub open spec fn views(keys: Seq<Key>) -> Seq<KeyView> {
    keys.map_values(|key: Key| key@)
}

/// Where the first credential with identifier `id` stands, or the length of
/// the list if there is none.
pub open spec fn index_of(records: Seq<KeyView>, id: u32) -> int
    decreases records.len(),
{
    if records.len() == 0 {
        0
    } else if records[0].id == id {
        0
    } else {
        1 + index_of(records.drop_first(), id)
    }
}

/// Some credential carries the identifier `id`.
pub open spec fn has_id(records: Seq<KeyView>, id: u32) -> bool {
    index_of(records, id) < records.len()
}

/// No two credentials share an identifier.
pub open spec fn distinct_ids(records: Seq<KeyView>) -> bool {
    forall|i: int, j: int|
        0 <= i < j < records.len() ==> (#[trigger] records[i]).id != (#[trigger] records[j]).id
}

/// The credential at `at` carries an identifier that one before it carries.
pub open spec fn repeats_at(records: Seq<KeyView>, at: int) -> bool {
    exists|i: int| 0 <= i < at && (#[trigger] records[i]).id == records[at].id
}

/// `id` is the first identifier to come a second time: that of the first
/// credential which repeats one before it.
pub open spec fn first_shared(records: Seq<KeyView>, id: u32) -> bool {
    exists|at: int|
        0 <= at < records.len() && #[trigger] repeats_at(records, at) && records[at].id == id
            && forall|k: int| 0 <= k < at ==> !repeats_at(records, k)
}

/// What a vault keeps true: identifiers are unique and none lies above the
/// watermark, so the next one given out is new.
pub open spec fn consistent(records: Seq<KeyView>, watermark: u32) -> bool {
    &&& distinct_ids(records)
    &&& forall|i: int| 0 <= i < records.len() ==> (#[trigger] records[i]).id <= watermark
}

/// The highest identifier among some credentials, zero if there are none.
pub open spec fn max_id_of(records: Seq<KeyView>) -> u32
    decreases records.len(),
{
    if records.len() == 0 {
        0
    } else if records.last().id > max_id_of(records.drop_last()) {
        records.last().id
    } else {
        max_id_of(records.drop_last())
    }
}

/// A credential after an edit: location, login name and notes are replaced
/// where the new value is not empty; the secret and the time always are.
pub open spec fn revised(
    before: KeyView,
    url: Seq<char>,
    user: Seq<char>,
    notes: Seq<char>,
    password: Seq<char>,
    last_updated: i64,
) -> KeyView {
    KeyView {
        id: before.id,
        url: if url.len() > 0 {
            url
        } else {
            before.url
        },
        user: if user.len() > 0 {
            user
        } else {
            before.user
        },
        notes: if notes.len() > 0 {
            notes
        } else {
            before.notes
        },
        password,
        last_updated,
    }
}

/// The credentials once `key` is stored: it takes the place of the one with
/// its identifier, or goes to the end if there is none.
pub open spec fn stored(records: Seq<KeyView>, key: KeyView) -> Seq<KeyView> {
    if has_id(records, key.id) {
        records.update(index_of(records, key.id), key)
    } else {
        records.push(key)
    }
}

/// The credentials once the one with identifier `id` is gone. The others
/// keep their order.
pub open spec fn without(records: Seq<KeyView>, id: u32) -> Seq<KeyView> {
    if has_id(records, id) {
        records.remove(index_of(records, id))
    } else {
        records
    }
}

/// The secret of the credential `id` in the clear, as a private key opens
/// it: the secret of the first credential with that identifier, decrypted.
pub open spec fn secret_of(records: Seq<KeyView>, private_key: RsaPrivateKey, id: u32) -> Result<
    Seq<char>,
    KeyBoxErr,
> {
    if has_id(records, id) {
        opened_text(private_key, records[index_of(records, id)].password)
    } else {
        Err(KeyBoxErr::NoSuchRecord)
    }
}

/// The files that mirror some credentials: from the name of each file to the
/// credential it holds.
pub open spec fn mirror(records: Seq<KeyView>) -> Map<Seq<char>, KeyView> {
    Map::new(
        |name: Seq<char>|
            exists|i: int| 0 <= i < records.len() && name == key_file_text(
                (#[trigger] records[i]).id,
            ),
        |name: Seq<char>|
            records[choose|i: int|
                0 <= i < records.len() && name == key_file_text((#[trigger] records[i]).id)],
    )
}

/// The first credential with identifier `id` stands where `index_of` says,
/// and none before it carries `id`.
pub proof fn lemma_index_of(records: Seq<KeyView>, id: u32)
    ensures
        0 <= index_of(records, id) <= records.len(),
        has_id(records, id) ==> records[index_of(records, id)].id == id,
        forall|j: int| 0 <= j < index_of(records, id) ==> (#[trigger] records[j]).id != id,
    decreases records.len(),
{
    if records.len() > 0 && records[0].id != id {
        let rest = records.drop_first();
        lemma_index_of(rest, id);
        assert forall|j: int| 0 <= j < index_of(records, id) implies (#[trigger] records[j]).id
            != id by {
            if j > 0 {
                assert(records[j] == rest[j - 1]);
            }
        }
    }
}

/// A position before which no credential carries `id`, and at which one does
/// or the list ends, is the position `index_of` gives.
pub proof fn lemma_index_of_is(records: Seq<KeyView>, id: u32, at: int)
    requires
        0 <= at <= records.len(),
        forall|j: int| 0 <= j < at ==> (#[trigger] records[j]).id != id,
        at < records.len() ==> records[at].id == id,
    ensures
        index_of(records, id) == at,
    decreases at,
{
    if at > 0 {
        let rest = records.drop_first();
        assert(records[0].id != id);
        assert forall|j: int| 0 <= j < at - 1 implies (#[trigger] rest[j]).id != id by {
            assert(rest[j] == records[j + 1]);
        }
        if at < records.len() {
            assert(rest[at - 1] == records[at]);
        }
        lemma_index_of_is(rest, id, at - 1);
    }
}

/// No credential lies above the highest identifier, and unless there are
/// none, one credential carries it.
pub proof fn lemma_max_id_of(records: Seq<KeyView>)
    ensures
        forall|i: int| 0 <= i < records.len() ==> (#[trigger] records[i]).id <= max_id_of(records),
        records.len() > 0 ==> exists|i: int|
            0 <= i < records.len() && (#[trigger] records[i]).id == max_id_of(records),
        records.len() == 0 ==> max_id_of(records) == 0,
    decreases records.len(),
{
    if records.len() > 0 {
        let rest = records.drop_last();
        lemma_max_id_of(rest);
        assert forall|i: int| 0 <= i < records.len() implies (#[trigger] records[i]).id
            <= max_id_of(records) by {
            if i < rest.len() {
                assert(records[i] == rest[i]);
            }
        }
        if records.last().id > max_id_of(rest) || rest.len() == 0 {
            assert(records[records.len() - 1].id == max_id_of(records));
        } else {
            let i = choose|i: int| 0 <= i < rest.len() && (#[trigger] rest[i]).id == max_id_of(rest);
            assert(records[i] == rest[i]);
        }
    }
}

/// A credential that has been stored is found under its identifier.
pub proof fn lemma_stored_is_found(records: Seq<KeyView>, key: KeyView)
    ensures
        has_id(stored(records, key), key.id),
        stored(records, key)[index_of(stored(records, key), key.id)] == key,
        stored(records, key).len() == if has_id(records, key.id) {
            records.len()
        } else {
            records.len() + 1
        },
{
    lemma_index_of(records, key.id);
    let after = stored(records, key);
    let at = index_of(records, key.id);
    assert forall|j: int| 0 <= j < at implies (#[trigger] after[j]).id != key.id by {
        assert(after[j] == records[j]);
    }
    lemma_index_of_is(after, key.id, at);
}

/// Storing a credential keeps a vault consistent once the watermark has
/// been raised to its identifier.
pub proof fn lemma_stored_consistent(records: Seq<KeyView>, watermark: u32, key: KeyView)
    requires
        consistent(records, watermark),
        key.id <= watermark,
    ensures
        consistent(stored(records, key), watermark),
{
    lemma_index_of(records, key.id);
    let after = stored(records, key);
    let at = index_of(records, key.id);
    assert forall|i: int, j: int| 0 <= i < j < after.len() implies (#[trigger] after[i]).id != (
    #[trigger] after[j]).id by {
        if has_id(records, key.id) {
            if i == at {
                assert(records[j].id != records[at].id);
            } else if j == at {
                assert(records[i].id != records[at].id);
            } else {
                assert(records[i].id != records[j].id);
            }
        } else {
            if j == records.len() {
                assert(records[i].id != key.id);
            } else {
                assert(records[i].id != records[j].id);
            }
        }
    }
}

/// Once a credential is removed, none carries its identifier, every other
/// one is still there, and the vault stays consistent.
pub proof fn lemma_without(records: Seq<KeyView>, watermark: u32, id: u32)
    requires
        consistent(records, watermark),
    ensures
        consistent(without(records, id), watermark),
        !has_id(without(records, id), id),
        forall|i: int|
            0 <= i < records.len() && (#[trigger] records[i]).id != id ==> has_id(
                without(records, id),
                records[i].id,
            ),
{
    lemma_index_of(records, id);
    let after = without(records, id);
    let at = index_of(records, id);
    if has_id(records, id) {
        assert forall|k: int| 0 <= k < after.len() implies (#[trigger] after[k]).id != id by {
            if k < at {
                assert(after[k] == records[k]);
            } else {
                assert(after[k] == records[k + 1]);
                assert(records[at].id != records[k + 1].id);
            }
        }
        assert forall|i: int, j: int| 0 <= i < j < after.len() implies (#[trigger] after[i]).id
            != (#[trigger] after[j]).id by {
            let a = if i < at {
                i
            } else {
                i + 1
            };
            let b = if j < at {
                j
            } else {
                j + 1
            };
            assert(after[i] == records[a]);
            assert(after[j] == records[b]);
            assert(records[a].id != records[b].id);
        }
        assert forall|i: int| 0 <= i < after.len() implies (#[trigger] after[i]).id
            <= watermark by {
            let a = if i < at {
                i
            } else {
                i + 1
            };
            assert(after[i] == records[a]);
        }
    }
    lemma_index_of_is(after, id, after.len() as int);
    assert forall|i: int| 0 <= i < records.len() && (#[trigger] records[i]).id != id implies has_id(
        after,
        records[i].id,
    ) by {
        let k = if has_id(records, id) && i > at {
            i - 1
        } else {
            i
        };
        assert(after[k] == records[i]);
        lemma_index_of(after, records[i].id);
        if !has_id(after, records[i].id) {
            assert(after[k].id != records[i].id);
        }
    }
}

/// In a consistent vault the identifier one above the watermark lies above
/// every identifier in use, so the next credential gets a new one.
pub proof fn lemma_next_id_is_new(records: Seq<KeyView>, watermark: u32)
    requires
        consistent(records, watermark),
    ensures
        forall|i: int| 0 <= i < records.len() ==> (#[trigger] records[i]).id < watermark + 1,
        watermark < u32::MAX ==> !has_id(records, (watermark + 1) as u32),
{
    if watermark < u32::MAX {
        lemma_index_of(records, (watermark + 1) as u32);
    }
}

/// After a vault is opened from disk the next identifier lies above the
/// highest identifier found there.
pub proof fn lemma_next_id_after_load(records: Seq<KeyView>)
    ensures
        forall|i: int| 0 <= i < records.len() ==> (#[trigger] records[i]).id < max_id_of(records) + 1,
{
    lemma_max_id_of(records);
}

/// The identifiers that `n` credentials made one after the other receive
/// when the watermark stands at `watermark`: each is one above the watermark
/// that the one before left.
pub open spec fn issued(watermark: nat, n: nat) -> Seq<nat>
    decreases n,
{
    if n == 0 {
        Seq::empty()
    } else {
        issued(watermark, (n - 1) as nat).push(watermark + n)
    }
}

/// Identifiers given out one after the other rise strictly, so they are
/// distinct, and all lie above the watermark they started from.
pub proof fn lemma_issued_rising(watermark: nat, n: nat)
    ensures
        issued(watermark, n).len() == n,
        forall|i: int| 0 <= i < n ==> (#[trigger] issued(watermark, n)[i]) == watermark + 1 + i,
        forall|i: int, j: int|
            0 <= i < j < n ==> (#[trigger] issued(watermark, n)[i]) < (#[trigger] issued(
                watermark,
                n,
            )[j]),
    decreases n,
{
    if n > 0 {
        lemma_issued_rising(watermark, (n - 1) as nat);
    }
}

/// Every text contains the empty text, so the empty query finds every
/// credential.
pub proof fn lemma_empty_query_finds_all(records: Seq<KeyView>)
    ensures
        records.filter(|key: KeyView| answers(key, Seq::<char>::empty())) == records,
    decreases records.len(),
{
    let wanted = |key: KeyView| answers(key, Seq::<char>::empty());
    reveal(Seq::filter);
    if records.len() > 0 {
        lemma_empty_query_finds_all(records.drop_last());
        let last = records.last();
        assert(occurs_at(last.url, Seq::<char>::empty(), 0)) by {
            assert(last.url.subrange(0, 0) =~= Seq::<char>::empty());
        }
        assert(wanted(last));
        assert(records.drop_last().push(last) =~= records);
    }
}

/// A query finds a credential exactly if it answers the query.
pub proof fn lemma_query_finds(records: Seq<KeyView>, query: Seq<char>, key: KeyView)
    ensures
        records.filter(|key: KeyView| answers(key, query)).contains(key) <==> records.contains(key)
            && answers(key, query),
{
    let wanted = |key: KeyView| answers(key, query);
    let hits = records.filter(wanted);
    if hits.contains(key) {
        let i = choose|i: int| 0 <= i < hits.len() && hits[i] == key;
        records.lemma_filter_pred(wanted, i);
        records.lemma_filter_contains_rev(wanted, key);
    }
    if records.contains(key) && answers(key, query) {
        let i = choose|i: int| 0 <= i < records.len() && records[i] == key;
        records.lemma_filter_contains(wanted, i);
    }
}

/// Once a credential is stored, what is revealed under its identifier is
/// what its secret decrypts to: after an edit the new secret, whatever the
/// secret was before and even if it was the same.
pub proof fn lemma_stored_is_revealed(
    records: Seq<KeyView>,
    private_key: RsaPrivateKey,
    key: KeyView,
)
    ensures
        secret_of(stored(records, key), private_key, key.id) == opened_text(private_key, key.password),
{
    lemma_stored_is_found(records, key);
}

/// Once a credential is removed, nothing is revealed under its identifier.
pub proof fn lemma_removed_is_not_revealed(
    records: Seq<KeyView>,
    private_key: RsaPrivateKey,
    id: u32,
)
    requires
        distinct_ids(records),
    ensures
        secret_of(without(records, id), private_key, id) == Err::<Seq<char>, KeyBoxErr>(
            KeyBoxErr::NoSuchRecord,
        ),
{
    lemma_without(records, u32::MAX, id);
}

/// Credentials read from a directory that holds no file for `id` do not
/// include `id`.
pub proof fn lemma_no_file_no_credential(records: Seq<KeyView>, id: u32)
    requires
        !mirror(records).dom().contains(key_file_text(id)),
    ensures
        !has_id(records, id),
{
    lemma_index_of(records, id);
    if has_id(records, id) {
        assert(key_file_text(id) == key_file_text(records[index_of(records, id)].id));
    }
}

/// In a vault without shared identifiers each credential is mirrored by the
/// file named after it.
pub proof fn lemma_mirror_holds(records: Seq<KeyView>, i: int)
    requires
        distinct_ids(records),
        0 <= i < records.len(),
    ensures
        mirror(records).dom().contains(key_file_text(records[i].id)),
        mirror(records)[key_file_text(records[i].id)] == records[i],
{
    let name = key_file_text(records[i].id);
    let j = choose|j: int| 0 <= j < records.len() && name == key_file_text((#[trigger] records[j]).id);
    lemma_key_file_injective(records[i].id, records[j].id);
    if i < j {
        assert(records[i].id != records[j].id);
    } else if j < i {
        assert(records[j].id != records[i].id);
    }
}

/// Storing a credential calls for writing exactly its file: the mirror of
/// the vault afterwards is the mirror before with that file put in.
pub proof fn lemma_mirror_stored(records: Seq<KeyView>, key: KeyView)
    requires
        distinct_ids(records),
    ensures
        mirror(stored(records, key)) == mirror(records).insert(key_file_text(key.id), key),
{
    let after = stored(records, key);
    let at = index_of(records, key.id);
    lemma_index_of(records, key.id);
    lemma_stored_consistent(records, u32::MAX, key);
    let left = mirror(after);
    let right = mirror(records).insert(key_file_text(key.id), key);
    let slot = if has_id(records, key.id) {
        at
    } else {
        records.len() as int
    };
    assert(after[slot] == key);
    assert forall|name: Seq<char>| left.dom().contains(name) <==> right.dom().contains(name) by {
        if left.dom().contains(name) {
            let i = choose|i: int| 0 <= i < after.len() && name == key_file_text((#[trigger] after[i]).id);
            if i != slot {
                assert(after[i] == records[i]);
            }
        }
        if right.dom().contains(name) && name != key_file_text(key.id) {
            let i = choose|i: int|
                0 <= i < records.len() && name == key_file_text((#[trigger] records[i]).id);
            assert(records[i].id != key.id);
            assert(after[i] == records[i]);
        }
        if name == key_file_text(key.id) {
            assert(name == key_file_text(after[slot].id));
        }
    }
    assert forall|name: Seq<char>| left.dom().contains(name) implies left[name] == right[name] by {
        let i = choose|i: int| 0 <= i < after.len() && name == key_file_text((#[trigger] after[i]).id);
        lemma_mirror_holds(after, i);
        if i != slot {
            assert(after[i] == records[i]);
            assert(records[i].id != key.id) by {
                if has_id(records, key.id) {
                    if i < at {
                        assert(records[i].id != records[at].id);
                    } else {
                        assert(records[at].id != records[i].id);
                    }
                }
            }
            if name == key_file_text(key.id) {
                lemma_key_file_injective(records[i].id, key.id);
            }
            lemma_mirror_holds(records, i);
        }
    }
    assert(left =~= right);
}

/// Removing a credential calls for removing exactly its file, and once that
/// is done no file of that name is left to be read again.
pub proof fn lemma_mirror_without(records: Seq<KeyView>, id: u32)
    requires
        distinct_ids(records),
    ensures
        mirror(without(records, id)) == mirror(records).remove(key_file_text(id)),
        !mirror(without(records, id)).dom().contains(key_file_text(id)),
{
    let after = without(records, id);
    let at = index_of(records, id);
    lemma_index_of(records, id);
    let left = mirror(after);
    let right = mirror(records).remove(key_file_text(id));
    assert forall|k: int| 0 <= k < after.len() implies (#[trigger] after[k]).id != id && after[k]
        == records[if has_id(records, id) && k >= at {
        k + 1
    } else {
        k
    }] by {
        if has_id(records, id) {
            if k < at {
                assert(after[k] == records[k]);
            } else {
                assert(after[k] == records[k + 1]);
                assert(records[at].id != records[k + 1].id);
            }
        }
    }
    lemma_without(records, u32::MAX, id);
    assert forall|name: Seq<char>| left.dom().contains(name) <==> right.dom().contains(name) by {
        if left.dom().contains(name) {
            let k = choose|k: int| 0 <= k < after.len() && name == key_file_text((#[trigger] after[k]).id);
            let a = if has_id(records, id) && k >= at {
                k + 1
            } else {
                k
            };
            assert(after[k] == records[a]);
            assert(name == key_file_text(records[a].id));
            if name == key_file_text(id) {
                lemma_key_file_injective(after[k].id, id);
            }
        }
        if right.dom().contains(name) {
            let i = choose|i: int|
                0 <= i < records.len() && name == key_file_text((#[trigger] records[i]).id);
            assert(records[i].id != id);
            let k = if has_id(records, id) && i > at {
                i - 1
            } else {
                i
            };
            assert(after[k] == records[i]);
        }
    }
    assert forall|name: Seq<char>| left.dom().contains(name) implies left[name] == right[name] by {
        let k = choose|k: int| 0 <= k < after.len() && name == key_file_text((#[trigger] after[k]).id);
        let a = if has_id(records, id) && k >= at {
            k + 1
        } else {
            k
        };
        assert(after[k] == records[a]);
        lemma_mirror_holds(after, k);
        lemma_mirror_holds(records, a);
    }
    assert(left =~= right);
}

} // verus!
