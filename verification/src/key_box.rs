//! The vault of one session: the unlocked master key and the credentials in
//! memory. Every change is planned here and committed here; between the two
//! the caller mirrors it on disk and reports whether that went through.

use vstd::prelude::*;
use rsa::RsaPrivateKey;
use crate::errs::KeyBoxErr;
use crate::key::answers;
use crate::key::key_file_name;
use crate::key::key_file_text;
use crate::key::now_millis;
use crate::key::Key;
use crate::key::KeyView;
use crate::main_key::agrees;
use crate::main_key::modulus_size;
use crate::main_key::opened_text;
use crate::main_key::public_half;
use crate::main_key::unlocked;
use crate::main_key::MainKey;
use crate::records::consistent;
use crate::records::distinct_ids;
use crate::records::first_shared;
use crate::records::has_id;
use crate::records::index_of;
use crate::records::lemma_index_of;
use crate::records::lemma_index_of_is;
use crate::records::lemma_max_id_of;
use crate::records::lemma_stored_consistent;
use crate::records::lemma_stored_is_found;
use crate::records::lemma_without;
use crate::records::max_id_of;
use crate::records::repeats_at;
use crate::records::revised;
use crate::records::secret_of;
use crate::records::stored;
use crate::records::views;
use crate::records::without;

verus! {

/// The session's vault: the unlocked master key and the credentials.
pub struct KeyBox {
    main_key: MainKey,
    keys: Vec<Key>,
}

impl KeyBox {
    #[verifier::type_invariant]
    spec fn well_formed(self) -> bool {
        consistent(views(self.keys@), self.main_key.max_id())
    }

    /// The credentials in memory, in the order in which they are listed.
    pub closed spec fn records(&self) -> Seq<KeyView> {
        views(self.keys@)
    }

    /// The highest identifier given out so far.
    pub closed spec fn watermark(&self) -> u32 {
        self.main_key.max_id()
    }

    /// The private half of the master key.
    pub closed spec fn secret_key(&self) -> RsaPrivateKey {
        self.main_key.secret_key()
    }

    /// What the master key makes of a stored secret.
    pub open spec fn decrypted(&self, text: Seq<char>) -> Result<Seq<char>, KeyBoxErr> {
        opened_text(self.secret_key(), text)
    }

    /// The largest number of bytes that a secret may hold.
    pub open spec fn payload_limit(&self) -> int {
        modulus_size(public_half(self.secret_key())) - 11
    }

    /// The secret of the credential `id` in the clear.
    pub open spec fn revealed(&self, id: u32) -> Result<Seq<char>, KeyBoxErr> {
        secret_of(self.records(), self.secret_key(), id)
    }

    /// Starts a vault: generates the master key and seals it under `pwd`.
    /// Returns the empty vault and the container text, which the caller
    /// persists as the master key's file and which opens under `pwd` to the
    /// key of this vault.
    pub fn new_key_box_with_main_password(pwd: String) -> (res: Result<(KeyBox, String), KeyBoxErr>)
        ensures
            match res {
                Ok(made) => {
                    &&& made.0.records() == Seq::<KeyView>::empty()
                    &&& made.0.watermark() == 0
                    &&& made.0.payload_limit() >= 245
                    &&& unlocked(made.1@, pwd@) == Some(made.0.secret_key())
                },
                Err(e) => e == KeyBoxErr::KeyGenerationError,
            },
    {
        match MainKey::generate_with_password(pwd) {
            Ok(made) => {
                let (main_key, container) = made;
                let keys: Vec<Key> = Vec::new();
                proof {
                    assert(views(keys@) =~= Seq::<KeyView>::empty());
                }
                Ok((KeyBox { main_key, keys }, container))
            },
            Err(e) => Err(e),
        }
    }

    /// Commits the start of a vault once the caller has tried to write the
    /// master key's file. The vault is handed back if the file is there, and
    /// given up with `PersistenceError` if it is not: no vault is used whose
    /// key could not be opened again.
    pub fn main_key_saved(self, written: bool) -> (res: Result<KeyBox, KeyBoxErr>)
        ensures
            written ==> res == Ok::<KeyBox, KeyBoxErr>(self),
            !written ==> res == Err::<KeyBox, KeyBoxErr>(KeyBoxErr::PersistenceError),
    {
        if written {
            Ok(self)
        } else {
            Err(KeyBoxErr::PersistenceError)
        }
    }

    /// The first identifier that two of the credentials share, going by the
    /// place of the second; none if all identifiers differ. A caller that
    /// read the credentials from files can name the offending one by it.
    pub fn first_shared_id(keys: &Vec<Key>) -> (found: Option<u32>)
        ensures
            match found {
                Some(id) => first_shared(views(keys@), id),
                None => distinct_ids(views(keys@)),
            },
    {
        let ghost records = views(keys@);
        let mut at: usize = 0;
        while at < keys.len()
            invariant
                at <= keys@.len(),
                records == views(keys@),
                forall|k: int| 0 <= k < at ==> !repeats_at(records, k),
            decreases keys@.len() - at,
        {
            let id: u32 = keys[at].id;
            let mut i: usize = 0;
            while i < at
                invariant
                    i <= at < keys@.len(),
                    records == views(keys@),
                    id == records[at as int].id,
                    forall|k: int| 0 <= k < at ==> !repeats_at(records, k),
                    forall|k: int| 0 <= k < i ==> (#[trigger] records[k]).id != id,
                decreases at - i,
            {
                if keys[i].id == id {
                    proof {
                        assert(records[i as int].id == records[at as int].id);
                        assert(repeats_at(records, at as int));
                    }
                    return Some(id);
                }
                i += 1;
            }
            at += 1;
        }
        proof {
            assert forall|a: int, b: int| 0 <= a < b < records.len() implies (#[trigger] records[a]).id
                != (#[trigger] records[b]).id by {
                assert(!repeats_at(records, b));
            }
        }
        None
    }

    /// Takes in the credentials read from disk, in their order, under a
    /// master key that is already unlocked. Each identifier is reported to
    /// the key, so the watermark ends at the highest identifier seen, or
    /// where it stood if that was higher. Credentials that share an
    /// identifier cannot mirror one file each and are refused.
    pub fn load_keys(main_key: MainKey, keys: Vec<Key>) -> (res: Result<KeyBox, KeyBoxErr>)
        ensures
            match res {
                Ok(key_box) => {
                    &&& key_box.secret_key() == main_key.secret_key()
                    &&& key_box.records() == views(keys@)
                    &&& key_box.watermark() == if max_id_of(views(keys@)) > main_key.max_id() {
                        max_id_of(views(keys@))
                    } else {
                        main_key.max_id()
                    }
                    &&& consistent(key_box.records(), key_box.watermark())
                },
                Err(e) => e == KeyBoxErr::CorruptRecordError && !distinct_ids(views(keys@)),
            },
    {
        let ghost start = main_key.max_id();
        let ghost secret = main_key.secret_key();
        let ghost records = views(keys@);
        if let Some(id) = KeyBox::first_shared_id(&keys) {
            proof {
                let at = choose|at: int|
                    0 <= at < records.len() && #[trigger] repeats_at(records, at) && records[at].id
                        == id && forall|k: int| 0 <= k < at ==> !repeats_at(records, k);
                let i = choose|i: int| 0 <= i < at && (#[trigger] records[i]).id == records[at].id;
                assert(records[i].id == records[at].id);
            }
            return Err(KeyBoxErr::CorruptRecordError);
        }
        let mut main_key = main_key;
        let mut i: usize = 0;
        while i < keys.len()
            invariant
                i <= keys@.len(),
                records == views(keys@),
                main_key.secret_key() == secret,
                main_key.max_id() == if max_id_of(records.take(i as int)) > start {
                    max_id_of(records.take(i as int))
                } else {
                    start
                },
            decreases keys@.len() - i,
        {
            main_key.replace_max_key_id(keys[i].id);
            proof {
                let upto = records.take(i + 1);
                assert(upto.drop_last() =~= records.take(i as int));
                assert(upto.last() == records[i as int]);
            }
            i += 1;
        }
        proof {
            assert(records.take(i as int) =~= records);
            lemma_max_id_of(records);
        }
        Ok(KeyBox { main_key, keys })
    }

    /// Opens a vault: unlocks the master key in the container `key` with
    /// `pwd` and takes in the credentials read from disk, in their order.
    /// The watermark becomes the highest identifier among them. A container
    /// that does not open gives `WrongPassword`, whatever the credentials.
    pub fn load_with_password(key: String, pwd: String, keys: Vec<Key>) -> (res: Result<
        KeyBox,
        KeyBoxErr,
    >)
        ensures
            match res {
                Ok(key_box) => {
                    &&& unlocked(key@, pwd@) == Some(key_box.secret_key())
                    &&& key_box.records() == views(keys@)
                    &&& key_box.watermark() == max_id_of(views(keys@))
                    &&& consistent(key_box.records(), key_box.watermark())
                },
                Err(e) => if unlocked(key@, pwd@) is None {
                    e == KeyBoxErr::WrongPassword
                } else {
                    e == KeyBoxErr::CorruptRecordError && !distinct_ids(views(keys@))
                },
            },
    {
        match MainKey::load_key_with_password(key, pwd) {
            Ok(main_key) => KeyBox::load_keys(main_key, keys),
            Err(e) => Err(e),
        }
    }

    /// Ends the session's hold on the credentials and hands back the master
    /// key, with the watermark where it stands.
    pub fn into_main_key(self) -> (main_key: MainKey)
        ensures
            main_key.secret_key() == self.secret_key(),
            main_key.max_id() == self.watermark(),
    {
        let KeyBox { main_key, keys: _ } = self;
        main_key
    }

    /// The watermark, as a value at run time.
    pub fn max_id(&self) -> (id: u32)
        ensures
            id == self.watermark(),
    {
        self.main_key.watermark()
    }

    /// The largest number of bytes that a secret may hold.
    pub fn max_secret_len(&self) -> (len: usize)
        ensures
            len == if self.payload_limit() < 0 {
                0
            } else {
                self.payload_limit()
            },
    {
        self.main_key.max_secret_len()
    }

    /// All credentials, in their order.
    pub fn list_all_keys(&self) -> (keys: &Vec<Key>)
        ensures
            views(keys@) == self.records(),
            consistent(self.records(), self.watermark()),
    {
        proof {
            use_type_invariant(self);
        }
        &self.keys
    }

    /// Where the credential `id` stands.
    fn position(&self, id: u32) -> (at: Option<usize>)
        ensures
            match at {
                Some(i) => has_id(self.records(), id) && i == index_of(self.records(), id),
                None => !has_id(self.records(), id),
            },
    {
        let mut i: usize = 0;
        while i < self.keys.len()
            invariant
                i <= self.keys@.len(),
                forall|j: int| 0 <= j < i ==> (#[trigger] self.records()[j]).id != id,
            decreases self.keys@.len() - i,
        {
            if self.keys[i].id == id {
                proof {
                    lemma_index_of_is(self.records(), id, i as int);
                }
                return Some(i);
            }
            i += 1;
        }
        proof {
            lemma_index_of_is(self.records(), id, i as int);
        }
        None
    }

    /// The credential `id`, if the vault holds it.
    pub fn find_key(&self, id: u32) -> (found: Option<&Key>)
        ensures
            match found {
                Some(key) => has_id(self.records(), id) && key@ == self.records()[index_of(
                    self.records(),
                    id,
                )],
                None => !has_id(self.records(), id),
            },
    {
        match self.position(id) {
            Some(i) => Some(&self.keys[i]),
            None => None,
        }
    }

    /// The credentials that answer `query`: those whose location, login name
    /// or notes contain it. All of them and no others, in their order.
    pub fn query_key(&self, query: &str) -> (hits: Vec<Key>)
        ensures
            views(hits@) == self.records().filter(|key: KeyView| answers(key, query@)),
    {
        let ghost wanted = |key: KeyView| answers(key, query@);
        let mut hits: Vec<Key> = Vec::new();
        let mut i: usize = 0;
        proof {
            assert(self.records().take(0) =~= Seq::<KeyView>::empty());
            assert(views(hits@) =~= Seq::<KeyView>::empty());
            reveal(Seq::filter);
        }
        while i < self.keys.len()
            invariant
                i <= self.keys@.len(),
                self.records() == views(self.keys@),
                wanted == |key: KeyView| answers(key, query@),
                views(hits@) == self.records().take(i as int).filter(wanted),
            decreases self.keys@.len() - i,
        {
            proof {
                assert(self.records().take(i + 1) =~= self.records().take(i as int).push(
                    self.records()[i as int],
                ));
                self.records().take(i as int).lemma_filter_push(self.records()[i as int], wanted);
            }
            if self.keys[i].matches(query) {
                let ghost before = hits@;
                hits.push(self.keys[i].clone());
                proof {
                    assert(views(hits@) =~= views(before).push(self.records()[i as int]));
                }
            }
            i += 1;
        }
        proof {
            assert(self.records().take(i as int) =~= self.records());
        }
        hits
    }

    /// The secret of the credential `id` in the clear.
    pub fn decrypt_passwd(&self, id: u32) -> (res: Result<String, KeyBoxErr>)
        ensures
            agrees(res, self.revealed(id)),
    {
        match self.position(id) {
            Some(i) => self.main_key.decrypt(self.keys[i].password.as_str()),
            None => Err(KeyBoxErr::NoSuchRecord),
        }
    }

    /// Makes the next credential from an encrypted secret and a time. The
    /// identifier is one above the watermark, which moves up to it; the
    /// credential is not yet part of the vault.
    pub fn enroll(
        &mut self,
        url: String,
        user: String,
        notes: String,
        password: String,
        last_updated: i64,
    ) -> (key: Key)
        requires
            old(self).watermark() < u32::MAX,
        ensures
            key@ == (KeyView {
                id: (old(self).watermark() + 1) as u32,
                url: url@,
                user: user@,
                password: password@,
                notes: notes@,
                last_updated,
            }),
            final(self).watermark() == key.id,
            final(self).records() == old(self).records(),
            final(self).secret_key() == old(self).secret_key(),
            !has_id(final(self).records(), key.id),
            consistent(final(self).records(), final(self).watermark()),
    {
        proof {
            use_type_invariant(&*self);
        }
        let id = self.main_key.get_next_id();
        proof {
            lemma_index_of(self.records(), id);
        }
        Key { id, url, user, password, notes, last_updated }
    }

    /// Plans a new credential: encrypts `pwd`, stamps the time and gives out
    /// the next identifier. The caller writes the credential to its file and
    /// then reports to `save_key`. If encryption fails nothing has changed,
    /// and no identifier is used up.
    pub fn create_new_key(&mut self, url: String, user: String, notes: String, pwd: &str) -> (res:
        Result<Key, KeyBoxErr>)
        requires
            old(self).watermark() < u32::MAX,
        ensures
            vstd::utf8::encode_utf8(pwd@).len() > old(self).payload_limit() ==> res is Err,
            final(self).records() == old(self).records(),
            final(self).secret_key() == old(self).secret_key(),
            consistent(final(self).records(), final(self).watermark()),
            match res {
                Ok(key) => {
                    &&& key.id == old(self).watermark() + 1
                    &&& final(self).watermark() == key.id
                    &&& key.url@ == url@
                    &&& key.user@ == user@
                    &&& key.notes@ == notes@
                    &&& final(self).decrypted(key.password@) == Ok::<Seq<char>, KeyBoxErr>(pwd@)
                    &&& key.password@ != pwd@
                    &&& !has_id(final(self).records(), key.id)
                },
                Err(e) => e == KeyBoxErr::KeyGenerationError && final(self).watermark() == old(
                    self,
                ).watermark(),
            },
    {
        proof {
            use_type_invariant(&*self);
        }
        let password = match self.main_key.encrypt(pwd) {
            Ok(password) => password,
            Err(e) => {
                return Err(e);
            },
        };
        let now = now_millis();
        Ok(self.enroll(url, user, notes, password, now))
    }

    /// The credential `id` as an edit leaves it, given the newly encrypted
    /// secret and the time. The vault itself is not changed.
    pub fn revise(
        &self,
        id: u32,
        url: String,
        user: String,
        notes: String,
        password: String,
        last_updated: i64,
    ) -> (res: Result<Key, KeyBoxErr>)
        ensures
            match res {
                Ok(key) => has_id(self.records(), id) && key@ == revised(
                    self.records()[index_of(self.records(), id)],
                    url@,
                    user@,
                    notes@,
                    password@,
                    last_updated,
                ),
                Err(e) => e == KeyBoxErr::NoSuchRecord && !has_id(self.records(), id),
            },
    {
        let at = match self.position(id) {
            Some(at) => at,
            None => {
                return Err(KeyBoxErr::NoSuchRecord);
            },
        };
        proof {
            lemma_index_of(self.records(), id);
        }
        let before = &self.keys[at];
        let url = if url.as_str().is_empty() {
            before.url.clone()
        } else {
            url
        };
        let user = if user.as_str().is_empty() {
            before.user.clone()
        } else {
            user
        };
        let notes = if notes.as_str().is_empty() {
            before.notes.clone()
        } else {
            notes
        };
        Ok(Key { id, url, user, password, notes, last_updated })
    }

    /// Plans an edit of the credential `id`: location, login name and notes
    /// are replaced where the new value is not empty; the secret is always
    /// encrypted anew and replaced, and the time is stamped. The caller
    /// writes the result to its file and then reports to `save_key`.
    pub fn edit_key(&self, id: u32, url: String, user: String, notes: String, pwd: &str) -> (res:
        Result<Key, KeyBoxErr>)
        ensures
            !has_id(self.records(), id) ==> res == Err::<Key, KeyBoxErr>(KeyBoxErr::NoSuchRecord),
            has_id(self.records(), id) && vstd::utf8::encode_utf8(pwd@).len()
                > self.payload_limit() ==> res is Err,
            match res {
                Ok(key) => {
                    &&& has_id(self.records(), id)
                    &&& key@ == revised(
                        self.records()[index_of(self.records(), id)],
                        url@,
                        user@,
                        notes@,
                        key.password@,
                        key.last_updated,
                    )
                    &&& self.decrypted(key.password@) == Ok::<Seq<char>, KeyBoxErr>(pwd@)
                    &&& key.password@ != pwd@
                },
                Err(e) => if has_id(self.records(), id) {
                    e == KeyBoxErr::KeyGenerationError
                } else {
                    e == KeyBoxErr::NoSuchRecord
                },
            },
    {
        if self.position(id).is_none() {
            return Err(KeyBoxErr::NoSuchRecord);
        }
        let password = match self.main_key.encrypt(pwd) {
            Ok(password) => password,
            Err(e) => {
                return Err(e);
            },
        };
        let now = now_millis();
        self.revise(id, url, user, notes, password, now)
    }

    /// Commits a credential once the caller has tried to write its file.
    /// If the write failed, the vault stays as it was. Otherwise the
    /// credential takes the place of the one with its identifier, or joins
    /// at the end, and the watermark is raised to its identifier.
    pub fn save_key(&mut self, key: Key, written: bool) -> (res: Result<(), KeyBoxErr>)
        ensures
            final(self).secret_key() == old(self).secret_key(),
            consistent(final(self).records(), final(self).watermark()),
            written ==> {
                &&& res is Ok
                &&& final(self).records() == stored(old(self).records(), key@)
                &&& has_id(final(self).records(), key.id)
                &&& final(self).records()[index_of(final(self).records(), key.id)] == key@
                &&& final(self).watermark() == if key.id > old(self).watermark() {
                    key.id
                } else {
                    old(self).watermark()
                }
            },
            !written ==> {
                &&& res == Err::<(), KeyBoxErr>(KeyBoxErr::PersistenceError)
                &&& final(self).records() == old(self).records()
                &&& final(self).watermark() == old(self).watermark()
            },
    {
        proof {
            use_type_invariant(&*self);
        }
        if !written {
            return Err(KeyBoxErr::PersistenceError);
        }
        let at = self.position(key.id);
        let ghost before = self.records();
        self.main_key.replace_max_key_id(key.id);
        proof {
            lemma_stored_consistent(before, self.main_key.max_id(), key@);
            lemma_stored_is_found(before, key@);
        }
        let mut keys: Vec<Key> = Vec::new();
        proof {
            assert(views(keys@) =~= Seq::<KeyView>::empty());
        }
        std::mem::swap(&mut keys, &mut self.keys);
        match at {
            Some(i) => {
                keys.set(i, key);
                proof {
                    assert(views(keys@) =~= stored(before, key@));
                }
            },
            None => {
                keys.push(key);
                proof {
                    assert(views(keys@) =~= stored(before, key@));
                }
            },
        }
        self.keys = keys;
        Ok(())
    }

    /// Plans the removal of the credential `id`: names the file that the
    /// caller removes before reporting to `real_delete_key`.
    pub fn delete_key(&self, id: u32) -> (res: Result<String, KeyBoxErr>)
        ensures
            match res {
                Ok(name) => has_id(self.records(), id) && name@ == key_file_text(id),
                Err(e) => e == KeyBoxErr::NoSuchRecord && !has_id(self.records(), id),
            },
    {
        match self.position(id) {
            Some(_) => Ok(key_file_name(id)),
            None => Err(KeyBoxErr::NoSuchRecord),
        }
    }

    /// Commits the removal of the credential `id` once the caller has tried
    /// to remove its file. If there is no such credential, or the file is
    /// still there, the vault stays as it was. Otherwise the credential
    /// leaves and the others keep their order. The watermark never goes
    /// down, so the identifier is not given out again.
    pub fn real_delete_key(&mut self, id: u32, removed: bool) -> (res: Result<(), KeyBoxErr>)
        ensures
            final(self).secret_key() == old(self).secret_key(),
            final(self).watermark() == old(self).watermark(),
            consistent(final(self).records(), final(self).watermark()),
            res == if !has_id(old(self).records(), id) {
                Err::<(), KeyBoxErr>(KeyBoxErr::NoSuchRecord)
            } else if !removed {
                Err::<(), KeyBoxErr>(KeyBoxErr::PersistenceError)
            } else {
                Ok::<(), KeyBoxErr>(())
            },
            final(self).records() == if res is Ok {
                without(old(self).records(), id)
            } else {
                old(self).records()
            },
            res is Ok ==> !has_id(final(self).records(), id),
    {
        proof {
            use_type_invariant(&*self);
        }
        let at = match self.position(id) {
            Some(at) => at,
            None => {
                return Err(KeyBoxErr::NoSuchRecord);
            },
        };
        if !removed {
            return Err(KeyBoxErr::PersistenceError);
        }
        let ghost before = self.records();
        proof {
            lemma_without(before, self.main_key.max_id(), id);
        }
        let mut keys: Vec<Key> = Vec::new();
        proof {
            assert(views(keys@) =~= Seq::<KeyView>::empty());
        }
        std::mem::swap(&mut keys, &mut self.keys);
        keys.remove(at);
        proof {
            assert(views(keys@) =~= without(before, id));
        }
        self.keys = keys;
        Ok(())
    }
}

} // verus!
