use crate::assoc::{
    entries_map, key_position, keys_distinct, lemma_entries_push, lemma_entries_update,
    lemma_key_position,
};
use crate::error::ChainError;
use crate::primitives::{
    address_encode, base58_address_body, base58_address_text, copy_bytes, ed25519_keypair,
    generate_keypair, hash_of_pub_key, hashable, pub_key_hash, str_equal, KEY_LEN,
    SIGNATURE_LEN,
};
use vstd::prelude::*;

verus! {

/// An Ed25519 key pair.
#[derive(Debug, PartialEq)]
pub struct Wallet {
    pub secret_key: Vec<u8>,
    pub public_key: Vec<u8>,
}

/// What a `Wallet` holds, as mathematical values.
pub struct WalletView {
    pub secret_key: Seq<u8>,
    pub public_key: Seq<u8>,
}

impl View for Wallet {
    type V = WalletView;

    open spec fn view(&self) -> WalletView {
        WalletView { secret_key: self.secret_key@, public_key: self.public_key@ }
    }
}

impl Clone for Wallet {
    fn clone(&self) -> (copy: Self)
        ensures
            copy@ == self@,
    {
        Wallet {
            secret_key: copy_bytes(self.secret_key.as_slice()),
            public_key: copy_bytes(self.public_key.as_slice()),
        }
    }
}

/// The address of a wallet with the public key `public_key`: the Base58 text of the key's
/// hash.
pub open spec fn address_of(public_key: Seq<u8>) -> Seq<char> {
    base58_address_text(pub_key_hash(public_key))
}

impl Wallet {
    /// A wallet with a fresh key pair, made from 32 random bytes.
    pub fn new() -> (wallet: Wallet)
        ensures
            wallet@.secret_key.len() == SIGNATURE_LEN,
            wallet@.public_key.len() == KEY_LEN,
            exists|seed: Seq<u8>|
                seed.len() == KEY_LEN && (wallet@.secret_key, wallet@.public_key)
                    == ed25519_keypair(seed),
    {
        let (secret_key, public_key) = generate_keypair();
        Wallet { secret_key, public_key }
    }

    /// The wallet's address: the Base58 text of the hash of its public key. The address
    /// carries that hash, so that decoding it gives the hash back.
    pub fn get_address(&self) -> (address: String)
        requires
            hashable(self@.public_key),
        ensures
            address@ == address_of(self@.public_key),
            base58_address_body(address@) == Some(pub_key_hash(self@.public_key)),
    {
        match hash_of_pub_key(self.public_key.as_slice()) {
            Some(hash) => address_encode(hash.as_slice()),
            None => String::new(),
        }
    }
}

/// The views of a sequence of wallets with their addresses.
pub open spec fn wallets_view(wallets: Seq<(String, Wallet)>) -> Seq<(Seq<char>, WalletView)> {
    wallets.map_values(|entry: (String, Wallet)| (entry.0@, entry.1@))
}

/// A set of wallets, each under its address.
#[derive(Debug)]
pub struct Wallets {
    wallets: Vec<(String, Wallet)>,
}

impl View for Wallets {
    type V = Seq<(Seq<char>, WalletView)>;

    closed spec fn view(&self) -> Seq<(Seq<char>, WalletView)> {
        wallets_view(self.wallets@)
    }
}

/// Whether every wallet stands under its own address: the address of its public key.
pub open spec fn own_addresses(wallets: Seq<(Seq<char>, WalletView)>) -> bool {
    forall|i: int|
        0 <= i < wallets.len() ==> (#[trigger] wallets[i]).0 == address_of(wallets[i].1.public_key)
}

impl Wallets {
    #[verifier::type_invariant]
    spec fn inv(self) -> bool {
        keys_distinct(self@)
    }

    /// The wallets as a map from addresses.
    pub open spec fn as_map(&self) -> Map<Seq<char>, WalletView> {
        entries_map(self@)
    }

    /// The position of the wallet under `address`.
    fn position_of(&self, address: &str) -> (found: Option<usize>)
        ensures
            match found {
                Some(k) => key_position(self@, address@, 0) == Some(k as int) && k
                    < self.wallets@.len(),
                None => key_position(self@, address@, 0) is None,
            },
    {
        let mut i: usize = 0;
        while i < self.wallets.len()
            invariant
                i <= self.wallets@.len(),
                key_position(self@, address@, 0) == key_position(self@, address@, i as int),
            decreases self.wallets@.len() - i,
        {
            if str_equal(self.wallets[i].0.as_str(), address) {
                return Some(i);
            }
            i += 1;
        }
        None
    }

    /// A set without wallets.
    pub fn new() -> (made: Result<Wallets, ChainError>)
        ensures
            made matches Ok(set) && set@.len() == 0,
    {
        Ok(Wallets { wallets: Vec::new() })
    }

    /// Puts `wallet` under `address`, in the place of the wallet that was there. Every
    /// wallet still stands under its own address where `address` is that of `wallet`.
    pub fn insert(&mut self, address: String, wallet: Wallet)
        ensures
            final(self).as_map() == old(self).as_map().insert(address@, wallet@),
            keys_distinct(final(self)@),
            own_addresses(old(self)@) && address@ == address_of(wallet@.public_key)
                ==> own_addresses(final(self)@),
    {
        proof {
            use_type_invariant(&*self);
        }
        let ghost before = self@;
        let place = self.position_of(address.as_str());
        let mut wallets = take_wallets(self);
        match place {
            Some(k) => {
                proof {
                    lemma_key_position(before, address@, 0);
                    lemma_entries_update(before, k as int, wallet@);
                }
                wallets.set(k, (address, wallet));
                assert(wallets_view(wallets@) =~= before.update(
                    k as int,
                    (before[k as int].0, wallet@),
                ));
                assert(own_addresses(before) && before[k as int].0 == address_of(
                    wallet@.public_key,
                ) ==> own_addresses(wallets_view(wallets@))) by {
                    if own_addresses(before) && before[k as int].0 == address_of(
                        wallet@.public_key,
                    ) {
                        let after = wallets_view(wallets@);
                        assert forall|i: int| 0 <= i < after.len() implies (#[trigger] after[i]).0
                            == address_of(after[i].1.public_key) by {
                            if i != k {
                                assert(after[i] == before[i]);
                            }
                        }
                    }
                }
            },
            None => {
                proof {
                    lemma_entries_push(before, address@, wallet@);
                }
                wallets.push((address, wallet));
                assert(wallets_view(wallets@) =~= before.push((address@, wallet@)));
                assert(own_addresses(before) && address@ == address_of(wallet@.public_key)
                    ==> own_addresses(wallets_view(wallets@))) by {
                    if own_addresses(before) && address@ == address_of(wallet@.public_key) {
                        let after = wallets_view(wallets@);
                        assert forall|i: int| 0 <= i < after.len() implies (#[trigger] after[i]).0
                            == address_of(after[i].1.public_key) by {
                            if i < before.len() {
                                assert(after[i] == before[i]);
                            }
                        }
                    }
                }
            },
        }
        *self = Wallets { wallets };
    }

    /// Makes a wallet with a fresh key pair, puts it under its address, and gives the
    /// address.
    pub fn create_wallet(&mut self) -> (address: String)
        ensures
            keys_distinct(final(self)@),
            own_addresses(old(self)@) ==> own_addresses(final(self)@),
            final(self).as_map().contains_key(address@),
            address@ == address_of(final(self).as_map()[address@].public_key),
            final(self).as_map()[address@].secret_key.len() == SIGNATURE_LEN,
            final(self).as_map()[address@].public_key.len() == KEY_LEN,
            final(self).as_map() == old(self).as_map().insert(
                address@,
                final(self).as_map()[address@],
            ),
    {
        let wallet = Wallet::new();
        let address = wallet.get_address();
        self.insert(address.clone(), wallet);
        address
    }

    /// The addresses of all the wallets, each once.
    pub fn get_all_addresses(&self) -> (addresses: Vec<String>)
        ensures
            addresses@.len() == self@.len(),
            forall|i: int| 0 <= i < addresses@.len() ==> (#[trigger] addresses@[i])@ == self@[i].0,
            keys_distinct(self@),
    {
        proof {
            use_type_invariant(self);
        }
        let mut addresses: Vec<String> = Vec::new();
        let mut i: usize = 0;
        while i < self.wallets.len()
            invariant
                i <= self.wallets@.len(),
                addresses@.len() == i,
                forall|k: int| 0 <= k < i ==> (#[trigger] addresses@[k])@ == self@[k].0,
            decreases self.wallets@.len() - i,
        {
            addresses.push(self.wallets[i].0.clone());
            i += 1;
        }
        addresses
    }

    /// The wallet under `address`.
    pub fn get_wallet(&self, address: &str) -> (found: Option<&Wallet>)
        ensures
            match found {
                Some(wallet) => self.as_map().contains_key(address@) && self.as_map()[address@]
                    == wallet@,
                None => !self.as_map().contains_key(address@),
            },
    {
        match self.position_of(address) {
            Some(k) => Some(&self.wallets[k].1),
            None => None,
        }
    }

    /// The wallets with their addresses, in the order in which the set holds them.
    pub fn entries(&self) -> (entries: &Vec<(String, Wallet)>)
        ensures
            wallets_view(entries@) == self@,
    {
        &self.wallets
    }
}

/// The wallets of a set, which is left empty.
fn take_wallets(set: &mut Wallets) -> (wallets: Vec<(String, Wallet)>)
    ensures
        wallets@ == old(set).wallets@,
{
    let mut rest = Wallets { wallets: Vec::new() };
    std::mem::swap(set, &mut rest);
    rest.wallets
}

} // verus!
