//! Onion layers: each layer is a fresh nonce followed by the sealing of the
//! inner bytes under one hop's key. Wrapping seals for the last hop first;
//! peeling opens for the first hop first.
use vstd::prelude::*;
use crate::crypto::{Crypto, CryptoImpl, MAX_PLAINTEXT_LEN, NONCE_LEN, sealed_under};
use crate::types::{CryptoKey, DarkNodeError, EncryptedData, key_bytes};

verus! {

/// Bytes that one layer adds around its inner bytes.
pub const LAYER_OVERHEAD: usize = 28;

/// The wire form of a layer sealed under `key` with `nonce` around `inner`.
pub open spec fn layer_of(key: Seq<u8>, nonce: Seq<u8>, inner: Seq<u8>) -> Seq<u8> {
    nonce + sealed_under(key, nonce, inner)
}

/// The nonce that a layer's wire form starts with.
pub open spec fn nonce_part(bytes: Seq<u8>) -> Seq<u8> {
    bytes.subrange(0, NONCE_LEN as int)
}

/// The sealed bytes that follow a layer's nonce.
pub open spec fn sealed_part(bytes: Seq<u8>) -> Seq<u8> {
    bytes.subrange(NONCE_LEN as int, bytes.len() as int)
}

/// The layer `bytes` opens to `inner` under `key`: it is framed, and its
/// sealed part is the sealing of `inner` under its own nonce.
pub open spec fn opens_to(key: Seq<u8>, bytes: Seq<u8>, inner: Seq<u8>) -> bool {
    bytes.len() >= NONCE_LEN && sealed_part(bytes) == sealed_under(key, nonce_part(bytes), inner)
}

/// Nonces, one per layer, each of the fixed length.
pub open spec fn valid_nonces(nonces: Seq<Seq<u8>>, n: nat) -> bool {
    nonces.len() == n && forall|i: int| 0 <= i < n ==> (#[trigger] nonces[i]).len() == NONCE_LEN
}

/// The onion of `payload` for `keys` (first hop first) under `nonces`.
pub open spec fn onion(keys: Seq<Seq<u8>>, nonces: Seq<Seq<u8>>, payload: Seq<u8>) -> Seq<u8>
    decreases keys.len(),
{
    if keys.len() == 0 {
        payload
    } else {
        layer_of(keys[0], nonces[0], onion(keys.drop_first(), nonces.drop_first(), payload))
    }
}

/// `bytes` is an onion of `payload` for `keys` under some valid nonces.
pub open spec fn is_onion(keys: Seq<Seq<u8>>, bytes: Seq<u8>, payload: Seq<u8>) -> bool {
    exists|nonces: Seq<Seq<u8>>| valid_nonces(nonces, keys.len()) && #[trigger] onion(keys, nonces, payload) == bytes
}

/// The wire form of a layer: its nonce, then its sealed bytes.
pub fn encode_layer(layer: &EncryptedData) -> (r: Vec<u8>)
    ensures
        r@ == layer.nonce@ + layer.data@,
{
    let mut out: Vec<u8> = Vec::new();
    let mut i: usize = 0;
    while i < layer.nonce.len()
        invariant
            i <= layer.nonce@.len(),
            out@ == layer.nonce@.subrange(0, i as int),
        decreases layer.nonce@.len() - i,
    {
        out.push(layer.nonce[i]);
        i = i + 1;
        assert(out@ =~= layer.nonce@.subrange(0, i as int));
    }
    let mut j: usize = 0;
    while j < layer.data.len()
        invariant
            j <= layer.data@.len(),
            out@ == layer.nonce@ + layer.data@.subrange(0, j as int),
        decreases layer.data@.len() - j,
    {
        out.push(layer.data[j]);
        j = j + 1;
        assert(out@ =~= layer.nonce@ + layer.data@.subrange(0, j as int));
    }
    assert(layer.data@.subrange(0, layer.data@.len() as int) =~= layer.data@);
    out
}

/// Reads a layer from its wire form; bytes too short to hold a nonce are
/// refused.
pub fn decode_layer(bytes: &Vec<u8>) -> (r: Result<EncryptedData, DarkNodeError>)
    ensures
        bytes@.len() < NONCE_LEN ==> r == Err::<EncryptedData, DarkNodeError>(
            DarkNodeError::LayerDecryptFailure,
        ),
        bytes@.len() >= NONCE_LEN ==> r is Ok,
        r matches Ok(l) ==> l.nonce@ == nonce_part(bytes@) && l.data@ == sealed_part(bytes@)
            && l.aad is None,
{
    if bytes.len() < NONCE_LEN {
        return Err(DarkNodeError::LayerDecryptFailure);
    }
    let mut nonce: Vec<u8> = Vec::new();
    let mut data: Vec<u8> = Vec::new();
    let mut i: usize = 0;
    while i < bytes.len()
        invariant
            NONCE_LEN <= bytes@.len(),
            i <= bytes@.len(),
            i <= NONCE_LEN ==> nonce@ == bytes@.subrange(0, i as int) && data@.len() == 0,
            i > NONCE_LEN ==> nonce@ == nonce_part(bytes@) && data@ == bytes@.subrange(
                NONCE_LEN as int,
                i as int,
            ),
        decreases bytes@.len() - i,
    {
        if i < NONCE_LEN {
            nonce.push(bytes[i]);
        } else {
            data.push(bytes[i]);
        }
        i = i + 1;
        assert(i <= NONCE_LEN ==> nonce@ =~= bytes@.subrange(0, i as int));
        assert(i > NONCE_LEN ==> data@ =~= bytes@.subrange(NONCE_LEN as int, i as int));
    }
    assert(data@ =~= sealed_part(bytes@));
    Ok(EncryptedData { data, nonce, aad: None })
}

/// Adds one layer for the holder of `key` around `inner`.
pub fn add_layer(inner: &Vec<u8>, key: &CryptoKey) -> (r: Result<Vec<u8>, DarkNodeError>)
    ensures
        r matches Ok(l) ==> l@ == layer_of(key@, nonce_part(l@), inner@) && nonce_part(l@).len()
            == NONCE_LEN && l@.len() == inner@.len() + LAYER_OVERHEAD,
        r matches Err(e) ==> (e == DarkNodeError::PayloadTooLarge <==> inner@.len()
            > MAX_PLAINTEXT_LEN) && (e == DarkNodeError::PayloadTooLarge || e
            == DarkNodeError::RandomnessUnavailable),
{
    let crypto = CryptoImpl;
    let sealed = crypto.encrypt(inner, key)?;
    let out = encode_layer(&sealed);
    assert(nonce_part(out@) =~= sealed.nonce@);
    assert(out@ =~= layer_of(key@, nonce_part(out@), inner@));
    Ok(out)
}

/// Removes the outermost layer with the hop's own `key`: the inner bytes
/// exactly when the layer is framed and sealed around them under `key`.
pub fn peel_layer(bytes: &Vec<u8>, key: &CryptoKey) -> (r: Result<Vec<u8>, DarkNodeError>)
    ensures
        r matches Ok(inner) ==> opens_to(key@, bytes@, inner@) && inner@.len() + LAYER_OVERHEAD
            == bytes@.len(),
        forall|inner: Seq<u8>|
            bytes@.len() <= MAX_PLAINTEXT_LEN && #[trigger] opens_to(key@, bytes@, inner) ==> r is Ok
                && r->Ok_0@ == inner,
        r matches Err(e) ==> e == DarkNodeError::LayerDecryptFailure,
{
    let layer = decode_layer(bytes)?;
    let crypto = CryptoImpl;
    let inner = crypto.decrypt(&layer, key)?;
    proof {
        assert forall|p: Seq<u8>|
            bytes@.len() <= MAX_PLAINTEXT_LEN && #[trigger] opens_to(key@, bytes@, p) implies p
                == inner@ by {
            assert(sealed_under(key@, layer.nonce@, p) == layer.data@);
        }
    }
    Ok(inner)
}

/// Unfolds the onion over the keys from position `i` on by one layer.
pub proof fn lemma_onion_unfold(keys: Seq<Seq<u8>>, nonces: Seq<Seq<u8>>, payload: Seq<u8>, i: int)
    requires
        0 <= i < keys.len(),
        nonces.len() == keys.len(),
    ensures
        onion(keys.subrange(i, keys.len() as int), nonces.subrange(i, keys.len() as int), payload)
            == layer_of(
            keys[i],
            nonces[i],
            onion(keys.subrange(i + 1, keys.len() as int), nonces.subrange(i + 1, keys.len() as int), payload),
        ),
{
    let n = keys.len() as int;
    assert(keys.subrange(i, n).drop_first() =~= keys.subrange(i + 1, n));
    assert(nonces.subrange(i, n).drop_first() =~= nonces.subrange(i + 1, n));
}

/// An onion over keys followed by one more key is the onion over the first
/// keys around the layer of the last one.
pub proof fn lemma_onion_extend(
    keys: Seq<Seq<u8>>,
    nonces: Seq<Seq<u8>>,
    key: Seq<u8>,
    nonce: Seq<u8>,
    payload: Seq<u8>,
)
    requires
        nonces.len() == keys.len(),
    ensures
        onion(keys.push(key), nonces.push(nonce), payload) == onion(keys, nonces, layer_of(key, nonce, payload)),
    decreases keys.len(),
{
    let ks = keys.push(key);
    let ns = nonces.push(nonce);
    assert(ks[0] == if keys.len() == 0 { key } else { keys[0] });
    assert(ns[0] == if keys.len() == 0 { nonce } else { nonces[0] });
    if keys.len() == 0 {
        assert(ks.drop_first() =~= Seq::<Seq<u8>>::empty());
        assert(ns.drop_first() =~= Seq::<Seq<u8>>::empty());
        assert(onion(ks.drop_first(), ns.drop_first(), payload) == payload);
    } else {
        assert(ks.drop_first() =~= keys.drop_first().push(key));
        assert(ns.drop_first() =~= nonces.drop_first().push(nonce));
        lemma_onion_extend(keys.drop_first(), nonces.drop_first(), key, nonce, payload);
    }
}

/// Round trip: an onion of `payload` for one or more hop keys, under any
/// fresh nonces, is peeled hop by hop in order, each hop opening its layer
/// with its own key to the next hop's layer, until exactly `payload` is left;
/// and it is an onion that `peel_layers` takes back to `payload`.
pub proof fn lemma_round_trip(keys: Seq<Seq<u8>>, nonces: Seq<Seq<u8>>, payload: Seq<u8>)
    requires
        keys.len() >= 1,
        valid_nonces(nonces, keys.len()),
    ensures
        forall|i: int|
            0 <= i < keys.len() ==> opens_to(
                keys[i],
                #[trigger] onion(keys.subrange(i, keys.len() as int), nonces.subrange(i, keys.len() as int), payload),
                onion(keys.subrange(i + 1, keys.len() as int), nonces.subrange(i + 1, keys.len() as int), payload),
            ),
        onion(keys.subrange(keys.len() as int, keys.len() as int), nonces.subrange(keys.len() as int, keys.len() as int), payload)
            == payload,
        is_onion(keys, onion(keys, nonces, payload), payload),
{
    let n = keys.len() as int;
    assert forall|i: int|
        0 <= i < n implies opens_to(
            keys[i],
            #[trigger] onion(keys.subrange(i, n), nonces.subrange(i, n), payload),
            onion(keys.subrange(i + 1, n), nonces.subrange(i + 1, n), payload),
        ) by {
        lemma_onion_unfold(keys, nonces, payload, i);
        let layer = onion(keys.subrange(i, n), nonces.subrange(i, n), payload);
        let inner = onion(keys.subrange(i + 1, n), nonces.subrange(i + 1, n), payload);
        assert(nonces[i].len() == NONCE_LEN);
        assert(nonce_part(layer) =~= nonces[i]);
        assert(sealed_part(layer) =~= sealed_under(keys[i], nonces[i], inner));
    }
    assert(keys.subrange(n, n).len() == 0);
}

/// Tamper detection: a layer whose sealed bytes were altered, nonce kept,
/// never opens to the payload that the untouched layer held.
pub proof fn lemma_tampered_layer_rejected(key: Seq<u8>, nonce: Seq<u8>, payload: Seq<u8>, tampered: Seq<u8>)
    requires
        nonce.len() == NONCE_LEN,
        nonce_part(tampered) == nonce,
        tampered != layer_of(key, nonce, payload),
    ensures
        !opens_to(key, tampered, payload),
{
    if opens_to(key, tampered, payload) {
        assert(tampered =~= layer_of(key, nonce, payload));
    }
}

/// Wraps `payload` in one layer per key: the last key's layer innermost, the
/// first key's outermost.
pub fn wrap_layers(keys: &Vec<CryptoKey>, payload: &Vec<u8>) -> (r: Result<Vec<u8>, DarkNodeError>)
    ensures
        r matches Ok(b) ==> is_onion(key_bytes(keys@), b@, payload@) && b@.len() == payload@.len()
            + LAYER_OVERHEAD * keys@.len(),
        r matches Err(e) ==> e == DarkNodeError::PayloadTooLarge || e
            == DarkNodeError::RandomnessUnavailable,
        r matches Err(e) ==> (e == DarkNodeError::PayloadTooLarge ==> payload@.len()
            + LAYER_OVERHEAD * keys@.len() > MAX_PLAINTEXT_LEN + LAYER_OVERHEAD),
{
    let ghost kb = key_bytes(keys@);
    let ghost n = keys@.len() as int;
    let mut cur: Vec<u8> = payload.clone();
    assert(cur@ =~= payload@);
    let ghost mut nonces: Seq<Seq<u8>> = Seq::empty();
    let mut i: usize = keys.len();
    assert(kb.subrange(n, n) =~= Seq::<Seq<u8>>::empty());
    while i > 0
        invariant
            i <= keys@.len(),
            n == keys@.len(),
            kb == key_bytes(keys@),
            valid_nonces(nonces, (n - i) as nat),
            cur@ == onion(kb.subrange(i as int, n), nonces, payload@),
            cur@.len() == payload@.len() + LAYER_OVERHEAD * (n - i),
        decreases i,
    {
        i = i - 1;
        let next = match add_layer(&cur, &keys[i]) {
            Ok(l) => l,
            Err(e) => {
                assert(e == DarkNodeError::PayloadTooLarge ==> payload@.len() + LAYER_OVERHEAD * n
                    > MAX_PLAINTEXT_LEN + LAYER_OVERHEAD) by (nonlinear_arith)
                    requires
                        e == DarkNodeError::PayloadTooLarge ==> cur@.len() > MAX_PLAINTEXT_LEN,
                        cur@.len() == payload@.len() + LAYER_OVERHEAD * (n - i - 1),
                        i >= 0,
                ;
                return Err(e);
            },
        };
        proof {
            let nonce = nonce_part(next@);
            let old_nonces = nonces;
            nonces = seq![nonce] + old_nonces;
            assert(nonces.drop_first() =~= old_nonces);
            assert(kb.subrange(i as int, n).drop_first() =~= kb.subrange(i + 1, n));
            assert(kb[i as int] == keys@[i as int]@);
            assert forall|j: int| 0 <= j < n - i implies (#[trigger] nonces[j]).len() == NONCE_LEN by {
                if j > 0 {
                    assert(nonces[j] == old_nonces[j - 1]);
                }
            }
            assert(LAYER_OVERHEAD * (n - i) == LAYER_OVERHEAD * (n - i - 1) + LAYER_OVERHEAD) by (nonlinear_arith);
        }
        cur = next;
    }
    assert(kb.subrange(0, n) =~= kb);
    assert(valid_nonces(nonces, kb.len()) && onion(kb, nonces, payload@) == cur@);
    Ok(cur)
}

/// Removes one layer per key, the first key's layer first: the payload
/// exactly when `bytes` is an onion of it for these keys.
pub fn peel_layers(keys: &Vec<CryptoKey>, bytes: &Vec<u8>) -> (r: Result<Vec<u8>, DarkNodeError>)
    ensures
        r matches Ok(p) ==> is_onion(key_bytes(keys@), bytes@, p@),
        forall|payload: Seq<u8>|
            bytes@.len() <= MAX_PLAINTEXT_LEN && #[trigger] is_onion(key_bytes(keys@), bytes@, payload)
                ==> r is Ok && r->Ok_0@ == payload,
        r matches Err(e) ==> e == DarkNodeError::LayerDecryptFailure,
{
    let ghost kb = key_bytes(keys@);
    let ghost n = keys@.len() as int;
    let mut cur: Vec<u8> = bytes.clone();
    assert(cur@ =~= bytes@);
    let ghost mut outer: Seq<Seq<u8>> = Seq::empty();
    let mut i: usize = 0;
    assert(kb.subrange(0, 0) =~= Seq::<Seq<u8>>::empty());
    assert forall|ns: Seq<Seq<u8>>, p: Seq<u8>|
        valid_nonces(ns, n as nat) && bytes@.len() <= MAX_PLAINTEXT_LEN && #[trigger] onion(kb, ns, p)
            == bytes@ implies cur@ == onion(kb.subrange(0, n), ns.subrange(0, n), p) by {
        assert(kb.subrange(0, n) =~= kb);
        assert(ns.subrange(0, n) =~= ns);
    }
    while i < keys.len()
        invariant
            i <= keys@.len(),
            n == keys@.len(),
            kb == key_bytes(keys@),
            valid_nonces(outer, i as nat),
            onion(kb.subrange(0, i as int), outer, cur@) == bytes@,
            cur@.len() <= bytes@.len(),
            forall|ns: Seq<Seq<u8>>, p: Seq<u8>|
                valid_nonces(ns, n as nat) && bytes@.len() <= MAX_PLAINTEXT_LEN && #[trigger] onion(
                    kb,
                    ns,
                    p,
                ) == bytes@ ==> cur@ == onion(kb.subrange(i as int, n), ns.subrange(i as int, n), p),
        decreases n - i,
    {
        let inner = match peel_layer(&cur, &keys[i]) {
            Ok(inner) => inner,
            Err(e) => {
                proof {
                    assert forall|payload: Seq<u8>|
                        bytes@.len() <= MAX_PLAINTEXT_LEN && #[trigger] is_onion(kb, bytes@, payload)
                            implies false by {
                        let ns = choose|ns: Seq<Seq<u8>>|
                            valid_nonces(ns, kb.len()) && #[trigger] onion(kb, ns, payload) == bytes@;
                        lemma_onion_unfold(kb, ns, payload, i as int);
                        let expected = onion(kb.subrange(i + 1, n), ns.subrange(i + 1, n), payload);
                        assert(nonce_part(cur@) =~= ns[i as int]);
                        assert(sealed_part(cur@) =~= sealed_under(kb[i as int], ns[i as int], expected));
                        assert(kb[i as int] == keys@[i as int]@);
                        assert(opens_to(keys@[i as int]@, cur@, expected));
                    }
                }
                return Err(e);
            },
        };
        proof {
            assert(kb[i as int] == keys@[i as int]@);
            let nonce = nonce_part(cur@);
            assert(cur@ =~= layer_of(kb[i as int], nonce, inner@));
            lemma_onion_extend(kb.subrange(0, i as int), outer, kb[i as int], nonce, inner@);
            assert(kb.subrange(0, i as int).push(kb[i as int]) =~= kb.subrange(0, i + 1));
            let old_outer = outer;
            outer = old_outer.push(nonce);
            assert forall|j: int| 0 <= j < i + 1 implies (#[trigger] outer[j]).len() == NONCE_LEN by {
                if j < i {
                    assert(outer[j] == old_outer[j]);
                }
            }
            assert forall|ns: Seq<Seq<u8>>, p: Seq<u8>|
                valid_nonces(ns, n as nat) && bytes@.len() <= MAX_PLAINTEXT_LEN && #[trigger] onion(
                    kb,
                    ns,
                    p,
                ) == bytes@ implies inner@ == onion(kb.subrange(i + 1, n), ns.subrange(i + 1, n), p) by {
                lemma_onion_unfold(kb, ns, p, i as int);
                let expected = onion(kb.subrange(i + 1, n), ns.subrange(i + 1, n), p);
                assert(nonce_part(cur@) =~= ns[i as int]);
                assert(sealed_part(cur@) =~= sealed_under(kb[i as int], ns[i as int], expected));
                assert(opens_to(keys@[i as int]@, cur@, expected));
            }
        }
        cur = inner;
        i = i + 1;
    }
    assert(kb.subrange(0, n) =~= kb);
    proof {
        assert forall|payload: Seq<u8>|
            bytes@.len() <= MAX_PLAINTEXT_LEN && #[trigger] is_onion(kb, bytes@, payload) implies cur@
                == payload by {
            let ns = choose|ns: Seq<Seq<u8>>| valid_nonces(ns, kb.len()) && #[trigger] onion(kb, ns, payload) == bytes@;
            assert(kb.subrange(n, n) =~= Seq::<Seq<u8>>::empty());
        }
        assert(valid_nonces(outer, kb.len()) && onion(kb, outer, cur@) == bytes@);
    }
    Ok(cur)
}

} // verus!
