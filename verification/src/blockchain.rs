//! An educational blockchain: blocks sealed by a SHA-256 hash over all
//! their fields, linked to their predecessor by its hash, and mined by
//! proof of work (a hash that starts with a number of hexadecimal zeros).
use vstd::prelude::*;
use vstd::utf8::encode_utf8;
use crate::texto::{anexar, anexar_str, caracteres, decimal, decimal_spec, texto_de};
use sha2::{Digest, Sha256};

verus! {

/// Name for the SHA-256 digest of a byte sequence, as the `sha2` crate
/// computes it.
pub uninterp spec fn sha256(datos: Seq<u8>) -> Seq<u8>;

/// Trusted: calls `<sha2::Sha256 as Digest>::digest`. The contract claims
/// that the result is the digest named `sha256` of the bytes given, and
/// that it has 32 bytes (the `OutputSize` of `Sha256` is `U32` in the
/// crate's source). Nothing else is claimed of the digest.
#[verifier::external_body]
fn digerir(datos: &[u8]) -> (r: Vec<u8>)
    ensures
        r@ == sha256(datos@),
        r@.len() == 32,
{
    Sha256::digest(datos).to_vec()
}

/// A hexadecimal digit in lower case.
pub open spec fn hex_digito(d: nat) -> char {
    if d < 10 {
        (d + 48) as char
    } else {
        (d + 87) as char
    }
}

/// Each byte as two lower-case hexadecimal digits (`format!("{b:02x}")`).
pub open spec fn hex(bs: Seq<u8>) -> Seq<char>
    decreases bs.len(),
{
    if bs.len() == 0 {
        seq![]
    } else {
        hex(bs.drop_last()).push(hex_digito((bs.last() / 16) as nat)).push(
            hex_digito((bs.last() % 16) as nat),
        )
    }
}

/// The text that a block's hash is computed over: index, timestamp, data,
/// previous hash and nonce, concatenated.
pub open spec fn contenido(
    index: u64,
    timestamp: u64,
    data: Seq<char>,
    hash_anterior: Seq<char>,
    nonce: u64,
) -> Seq<char> {
    decimal_spec(index as nat) + decimal_spec(timestamp as nat) + data + hash_anterior
        + decimal_spec(nonce as nat)
}

/// The hash of a block with these fields: the hexadecimal SHA-256 digest of
/// the UTF-8 bytes of its content.
pub open spec fn hash_de(
    index: u64,
    timestamp: u64,
    data: Seq<char>,
    hash_anterior: Seq<char>,
    nonce: u64,
) -> Seq<char> {
    hex(digest_de(index, timestamp, data, hash_anterior, nonce))
}

/// Whether a hash starts with `d` zeros.
pub open spec fn cumple(h: Seq<char>, d: nat) -> bool {
    d <= h.len() && forall|i: int| 0 <= i < d ==> h[i] == '0'
}

/// `n` zeros.
pub open spec fn ceros(n: nat) -> Seq<char> {
    Seq::new(n, |i: int| '0')
}

/// A block of the chain.
#[derive(Debug, Clone, PartialEq)]
pub struct Bloque {
    /// Position in the chain (0 is the genesis block).
    pub index: u64,
    /// Unix time, in seconds, when the block was made.
    pub timestamp: u64,
    /// The payload.
    pub data: String,
    /// The hash of the previous block.
    pub hash_anterior: String,
    /// The hash of this block, as stored.
    pub hash: String,
    /// The number that mining adjusts.
    pub nonce: u64,
}

/// The hexadecimal digit `d`.
fn hex_char(d: u8) -> (r: char)
    requires
        d < 16,
    ensures
        r == hex_digito(d as nat),
{
    if d < 10 {
        (d + 48) as char
    } else {
        (d + 87) as char
    }
}

/// The bytes in hexadecimal.
fn a_hex(bs: &Vec<u8>) -> (r: Vec<char>)
    ensures
        r@ == hex(bs@),
{
    let mut r: Vec<char> = Vec::new();
    let n = bs.len();
    let mut i: usize = 0;
    while i < n
        invariant
            n == bs@.len(),
            i <= n,
            r@ == hex(bs@.take(i as int)),
        decreases n - i,
    {
        let b = bs[i];
        assert(bs@.take(i + 1).drop_last() =~= bs@.take(i as int));
        r.push(hex_char(b / 16));
        r.push(hex_char(b % 16));
        i = i + 1;
    }
    assert(bs@.take(n as int) =~= bs@);
    r
}

/// Whether `h` starts with `d` zeros.
fn empieza_con_ceros(h: &Vec<char>, d: usize) -> (r: bool)
    ensures
        r == cumple(h@, d as nat),
{
    if d > h.len() {
        return false;
    }
    let mut i: usize = 0;
    while i < d
        invariant
            d <= h@.len(),
            i <= d,
            forall|j: int| 0 <= j < i ==> h@[j] == '0',
        decreases d - i,
    {
        if h[i] != '0' {
            return false;
        }
        i = i + 1;
    }
    true
}

/// The hash of a block with these fields.
fn hash_de_campos(
    index: u64,
    timestamp: u64,
    data: &String,
    hash_anterior: &String,
    nonce: u64,
) -> (r: Vec<char>)
    ensures
        r@ == hash_de(index, timestamp, data@, hash_anterior@, nonce),
        r@.len() == 64,
{
    let mut c = decimal(index);
    anexar(&mut c, &decimal(timestamp));
    anexar_str(&mut c, data.as_str());
    anexar_str(&mut c, hash_anterior.as_str());
    anexar(&mut c, &decimal(nonce));
    assert(c@ =~= contenido(index, timestamp, data@, hash_anterior@, nonce));
    let texto = texto_de(&c);
    let digest = digerir(texto.as_str().as_bytes());
    proof {
        lema_hex_largo(digest@);
    }
    a_hex(&digest)
}

impl Bloque {
    /// The hash that the fields of this block call for.
    pub open spec fn hash_calculado(&self) -> Seq<char> {
        hash_de(self.index, self.timestamp, self.data@, self.hash_anterior@, self.nonce)
    }

    /// The hash that this block would have with nonce `k`.
    pub open spec fn hash_con_nonce(&self, k: u64) -> Seq<char> {
        hash_de(self.index, self.timestamp, self.data@, self.hash_anterior@, k)
    }

    /// Whether `minar(d)` can finish: the block is already valid at that
    /// difficulty, or some larger nonce that a `u64` holds gives a hash that
    /// meets it.
    pub open spec fn minable(&self, d: nat) -> bool {
        self.valido(d) || exists|k: u64| self.nonce < k && cumple(#[trigger] self.hash_con_nonce(k), d)
    }

    /// `despues` is `antes` after `minar(d)`: the same fields; unchanged when
    /// `antes` was already valid; otherwise the least larger nonce whose hash
    /// meets the difficulty, with that hash recomputed (so a stale stored
    /// hash never survives).
    pub open spec fn minado(antes: Bloque, despues: Bloque, d: nat) -> bool {
        &&& despues.index == antes.index
        &&& despues.timestamp == antes.timestamp
        &&& despues.data@ == antes.data@
        &&& despues.hash_anterior@ == antes.hash_anterior@
        &&& despues.hash@ == despues.hash_calculado()
        &&& cumple(despues.hash@, d)
        &&& if antes.valido(d) {
            despues.nonce == antes.nonce
        } else {
            &&& antes.nonce < despues.nonce
            &&& forall|j: u64|
                antes.nonce < j < despues.nonce ==> !cumple(#[trigger] antes.hash_con_nonce(j), d)
        }
    }

    /// The stored hash agrees with the fields and meets the difficulty.
    pub open spec fn valido(&self, d: nat) -> bool {
        self.hash@ == self.hash_calculado() && cumple(self.hash@, d)
    }

    /// The genesis block: index, timestamp and nonce 0, data
    /// "bloque génesis", 64 zeros as the previous hash, and its own hash.
    pub open spec fn es_genesis(&self) -> bool {
        &&& self.index == 0
        &&& self.timestamp == 0
        &&& self.data@ == "bloque génesis"@
        &&& self.hash_anterior@ == ceros(64)
        &&& self.nonce == 0
        &&& self.hash@ == self.hash_calculado()
    }

    /// The first block of a chain.
    pub fn genesis() -> (r: Bloque)
        ensures
            r.es_genesis(),
    {
        let mut z: Vec<char> = Vec::new();
        let mut i: usize = 0;
        while i < 64
            invariant
                i <= 64,
                z@ == ceros(i as nat),
            decreases 64 - i,
        {
            z.push('0');
            i = i + 1;
            assert(z@ =~= ceros(i as nat));
        }
        Bloque::nuevo(0, 0, "bloque génesis".to_owned(), texto_de(&z))
    }

    /// A block that is not mined yet, linked to `hash_anterior`: nonce 0
    /// and the hash that its fields call for.
    pub fn nuevo(index: u64, timestamp: u64, data: String, hash_anterior: String) -> (r: Bloque)
        ensures
            r.index == index,
            r.timestamp == timestamp,
            r.data@ == data@,
            r.hash_anterior@ == hash_anterior@,
            r.nonce == 0,
            r.hash@ == r.hash_calculado(),
    {
        let h = hash_de_campos(index, timestamp, &data, &hash_anterior, 0);
        Bloque { index, timestamp, data, hash_anterior, hash: texto_de(&h), nonce: 0 }
    }

    /// The SHA-256 hash of the block's fields, in hexadecimal.
    pub fn calcular_hash(&self) -> (r: String)
        ensures
            r@ == self.hash_calculado(),
            r@.len() == 64,
    {
        let h = hash_de_campos(self.index, self.timestamp, &self.data, &self.hash_anterior, self.nonce);
        texto_de(&h)
    }

    /// The nonce that `minar(dificultad)` ends with, if it can finish: the
    /// current one when the block is already valid, otherwise the least
    /// larger one whose hash meets the difficulty.
    pub fn buscar_nonce(&self, dificultad: usize) -> (r: Option<u64>)
        ensures
            r is Some <==> self.minable(dificultad as nat),
            r matches Some(k) ==> if self.valido(dificultad as nat) {
                k == self.nonce
            } else {
                &&& self.nonce < k
                &&& cumple(self.hash_con_nonce(k), dificultad as nat)
                &&& forall|j: u64|
                    self.nonce < j < k ==> !cumple(#[trigger] self.hash_con_nonce(j), dificultad as nat)
            },
    {
        if self.es_valido(dificultad) {
            return Some(self.nonce);
        }
        let mut k = self.nonce;
        while k < u64::MAX
            invariant
                self.nonce <= k,
                !self.valido(dificultad as nat),
                forall|j: u64|
                    self.nonce < j <= k ==> !cumple(#[trigger] self.hash_con_nonce(j), dificultad as nat),
            decreases u64::MAX - k,
        {
            k = k + 1;
            let h = hash_de_campos(self.index, self.timestamp, &self.data, &self.hash_anterior, k);
            if empieza_con_ceros(&h, dificultad) {
                assert(cumple(self.hash_con_nonce(k), dificultad as nat));
                assert(self.minable(dificultad as nat));
                return Some(k);
            }
        }
        assert(!self.minable(dificultad as nat)) by {
            if exists|j: u64| self.nonce < j && cumple(#[trigger] self.hash_con_nonce(j), dificultad as nat) {
                let j = choose|j: u64| self.nonce < j && cumple(#[trigger] self.hash_con_nonce(j), dificultad as nat);
                assert(j <= k);
            }
        }
        None
    }

    /// Proof of work: a block that is already valid is left as it is;
    /// otherwise the nonce is raised one by one, each time recomputing the
    /// hash, until the hash starts with `dificultad` zeros. The block comes
    /// out internally valid even when its stored hash was stale.
    pub fn minar(&mut self, dificultad: usize)
        requires
            old(self).minable(dificultad as nat),
        ensures
            Bloque::minado(*old(self), *final(self), dificultad as nat),
    {
        if self.es_valido(dificultad) {
            return;
        }
        match self.buscar_nonce(dificultad) {
            Some(k) => {
                let h = hash_de_campos(self.index, self.timestamp, &self.data, &self.hash_anterior, k);
                self.nonce = k;
                self.hash = texto_de(&h);
            },
            None => {},
        }
    }

    /// Mines the block when that can finish, and says whether it did;
    /// otherwise the block is left as it was.
    pub fn intentar_minar(&mut self, dificultad: usize) -> (r: bool)
        ensures
            r == old(self).minable(dificultad as nat),
            r ==> Bloque::minado(*old(self), *final(self), dificultad as nat),
            !r ==> *final(self) == *old(self),
    {
        if self.buscar_nonce(dificultad).is_some() {
            self.minar(dificultad);
            true
        } else {
            false
        }
    }

    /// Whether the stored hash agrees with the block's fields and starts
    /// with `dificultad` zeros.
    pub fn es_valido(&self, dificultad: usize) -> (r: bool)
        ensures
            r == self.valido(dificultad as nat),
    {
        let calculado = self.calcular_hash();
        let actual = caracteres(self.hash.as_str());
        self.hash == calculado && empieza_con_ceros(&actual, dificultad)
    }
}


/// A chain is valid when every block's stored hash agrees with its fields
/// and meets the difficulty (0 for the genesis block), and every block
/// after the first stores the hash of the block before it.
pub open spec fn cadena_valida(bs: Seq<Bloque>, d: nat) -> bool {
    forall|i: int| 0 <= i < bs.len() ==> #[trigger] eslabon_valido(bs, i, d)
}

/// Block `i` of `bs` is intact, meets its difficulty and links to the
/// block before it.
pub open spec fn eslabon_valido(bs: Seq<Bloque>, i: int, d: nat) -> bool {
    &&& bs[i].valido(if i == 0 { 0 } else { d })
    &&& i > 0 ==> bs[i].hash_anterior@ == bs[i - 1].hash@
}

/// A chain of blocks with one mining difficulty for all of them.
pub struct Cadena {
    pub bloques: Vec<Bloque>,
    pub dificultad: usize,
}

impl Cadena {
    /// A chain that holds only the genesis block.
    pub fn nueva(dificultad: usize) -> (r: Cadena)
        ensures
            r.bloques@.len() == 1,
            r.bloques@[0].es_genesis(),
            r.dificultad == dificultad,
    {
        let mut bloques: Vec<Bloque> = Vec::new();
        bloques.push(Bloque::genesis());
        Cadena { bloques, dificultad }
    }

    /// The last block.
    pub fn ultimo_bloque(&self) -> (r: &Bloque)
        requires
            self.bloques@.len() > 0,
        ensures
            *r == self.bloques@.last(),
    {
        &self.bloques[self.bloques.len() - 1]
    }

    /// The block that `agregar_bloque(data, timestamp)` mines, before mining.
    pub open spec fn siguiente(&self, data: Seq<char>, timestamp: u64, b: Bloque) -> bool {
        let anterior = self.bloques@.last();
        &&& b.index == anterior.index + 1
        &&& b.timestamp == timestamp
        &&& b.data@ == data
        &&& b.hash_anterior@ == anterior.hash@
        &&& b.nonce == 0
        &&& b.hash@ == b.hash_calculado()
    }

    /// Whether the block that `agregar_bloque(data, timestamp)` makes can be
    /// mined with a nonce that a `u64` holds.
    pub open spec fn agregable(&self, data: Seq<char>, timestamp: u64) -> bool {
        forall|b: Bloque| self.siguiente(data, timestamp, b) ==> #[trigger] b.minable(self.dificultad as nat)
    }

    /// Makes a block with `data` after the last one, mines it and appends
    /// it. A valid chain stays valid.
    pub fn agregar_bloque(&mut self, data: String, timestamp: u64)
        requires
            old(self).bloques@.len() > 0,
            old(self).bloques@.last().index < u64::MAX,
            old(self).agregable(data@, timestamp),
        ensures
            final(self).dificultad == old(self).dificultad,
            final(self).bloques@.len() == old(self).bloques@.len() + 1,
            final(self).bloques@.drop_last() == old(self).bloques@,
            exists|b: Bloque|
                old(self).siguiente(data@, timestamp, b) && #[trigger] Bloque::minado(
                    b,
                    final(self).bloques@.last(),
                    old(self).dificultad as nat,
                ),
            cadena_valida(old(self).bloques@, old(self).dificultad as nat) ==> cadena_valida(
                final(self).bloques@,
                final(self).dificultad as nat,
            ),
    {
        let anterior = self.ultimo_bloque();
        let mut nuevo = Bloque::nuevo(anterior.index + 1, timestamp, data, anterior.hash.clone());
        assert(self.siguiente(data@, timestamp, nuevo));
        let ghost fresco = nuevo;
        nuevo.minar(self.dificultad);
        let ghost antes = self.bloques@;
        self.bloques.push(nuevo);
        assert(self.bloques@.drop_last() =~= antes);
        assert(Bloque::minado(fresco, self.bloques@.last(), self.dificultad as nat));
        proof {
            let bs = self.bloques@;
            let d = self.dificultad as nat;
            if cadena_valida(antes, d) {
                assert forall|i: int| 0 <= i < bs.len() implies #[trigger] eslabon_valido(bs, i, d) by {
                    if i < antes.len() {
                        assert(eslabon_valido(antes, i, d));
                        assert(bs[i] == antes[i]);
                        if i > 0 {
                            assert(bs[i - 1] == antes[i - 1]);
                        }
                    } else {
                        assert(bs[i] == nuevo);
                        assert(bs[i - 1] == antes.last());
                        if d == 0 && i == 0 {
                        }
                    }
                }
            }
        }
    }

    /// Makes, mines and appends the block when its mining can finish and
    /// the index does not overflow, and says whether it did; otherwise the
    /// chain is left as it was.
    pub fn intentar_agregar_bloque(&mut self, data: String, timestamp: u64) -> (r: bool)
        requires
            old(self).bloques@.len() > 0,
        ensures
            !r ==> final(self).bloques@ == old(self).bloques@,
            final(self).dificultad == old(self).dificultad,
            r ==> final(self).bloques@.len() == old(self).bloques@.len() + 1,
            r ==> final(self).bloques@.drop_last() == old(self).bloques@,
            r ==> exists|b: Bloque|
                old(self).siguiente(data@, timestamp, b) && #[trigger] Bloque::minado(
                    b,
                    final(self).bloques@.last(),
                    old(self).dificultad as nat,
                ),
            r <==> (old(self).bloques@.last().index < u64::MAX && old(self).agregable(
                data@,
                timestamp,
            )),
    {
        let anterior = self.ultimo_bloque();
        if anterior.index == u64::MAX {
            return false;
        }
        let prueba = Bloque::nuevo(anterior.index + 1, timestamp, data.clone(), anterior.hash.clone());
        assert(self.siguiente(data@, timestamp, prueba));
        if prueba.buscar_nonce(self.dificultad).is_none() {
            return false;
        }
        assert(self.agregable(data@, timestamp)) by {
            assert forall|b: Bloque| self.siguiente(data@, timestamp, b) implies #[trigger] b.minable(
                self.dificultad as nat,
            ) by {
                assert(b.hash@ == prueba.hash@);
                assert(forall|k: u64| b.hash_con_nonce(k) == prueba.hash_con_nonce(k));
            }
        }
        self.agregar_bloque(data, timestamp);
        true
    }

    /// Whether every block is intact, meets the difficulty (the genesis
    /// block, 0) and links to the block before it.
    pub fn es_valida(&self) -> (r: bool)
        ensures
            r == cadena_valida(self.bloques@, self.dificultad as nat),
    {
        let n = self.bloques.len();
        let mut i: usize = 0;
        while i < n
            invariant
                n == self.bloques@.len(),
                i <= n,
                forall|j: int|
                    0 <= j < i ==> #[trigger] eslabon_valido(self.bloques@, j, self.dificultad as nat),
            decreases n - i,
        {
            let actual = &self.bloques[i];
            let exigida = if i == 0 {
                0
            } else {
                self.dificultad
            };
            if !actual.es_valido(exigida) {
                assert(!eslabon_valido(self.bloques@, i as int, self.dificultad as nat));
                return false;
            }
            if i > 0 {
                let previo = &self.bloques[i - 1];
                if actual.hash_anterior != previo.hash {
                    assert(!eslabon_valido(self.bloques@, i as int, self.dificultad as nat));
                    return false;
                }
            }
            assert(eslabon_valido(self.bloques@, i as int, self.dificultad as nat));
            i = i + 1;
        }
        true
    }

    /// The number of blocks.
    pub fn longitud(&self) -> (r: usize)
        ensures
            r == self.bloques@.len(),
    {
        self.bloques.len()
    }
}

/// A new chain, made of its genesis block alone, is valid whatever the
/// difficulty.
pub proof fn ley_cadena_nueva_valida(g: Bloque, d: nat)
    requires
        g.es_genesis(),
    ensures
        cadena_valida(seq![g], d),
{
    assert forall|i: int| 0 <= i < seq![g].len() implies #[trigger] eslabon_valido(seq![g], i, d) by {
        assert(seq![g][i] == g);
    }
}

/// The hash is a function of the fields alone: blocks with the same fields
/// have the same hash.
pub proof fn ley_hash_deterministico(a: Bloque, b: Bloque)
    requires
        a.index == b.index,
        a.timestamp == b.timestamp,
        a.data@ == b.data@,
        a.hash_anterior@ == b.hash_anterior@,
        a.nonce == b.nonce,
    ensures
        a.hash_calculado() == b.hash_calculado(),
{
}

/// Mining gives a valid block at that difficulty, whatever the stored
/// hash was before.
pub proof fn ley_minado_valido(antes: Bloque, despues: Bloque, d: nat)
    requires
        Bloque::minado(antes, despues, d),
    ensures
        despues.valido(d),
{
}

/// Two hexadecimal digits that are the same come from the same value.
proof fn lema_hex_digito(a: nat, b: nat)
    requires
        a < 16,
        b < 16,
        hex_digito(a) == hex_digito(b),
    ensures
        a == b,
{
}

/// Different byte sequences are written differently in hexadecimal.
pub proof fn lema_hex_inyectiva(a: Seq<u8>, b: Seq<u8>)
    requires
        hex(a) == hex(b),
    ensures
        a == b,
    decreases a.len(),
{
    lema_hex_largo(a);
    lema_hex_largo(b);
    if a.len() > 0 {
        let ha = hex(a.drop_last());
        let hb = hex(b.drop_last());
        lema_hex_largo(a.drop_last());
        lema_hex_largo(b.drop_last());
        let x = a.last();
        let y = b.last();
        assert(hex(a)[hex(a).len() - 1] == hex_digito((x % 16) as nat));
        assert(hex(b)[hex(b).len() - 1] == hex_digito((y % 16) as nat));
        assert(hex(a)[hex(a).len() - 2] == hex_digito((x / 16) as nat));
        assert(hex(b)[hex(b).len() - 2] == hex_digito((y / 16) as nat));
        lema_hex_digito((x % 16) as nat, (y % 16) as nat);
        lema_hex_digito((x / 16) as nat, (y / 16) as nat);
        assert(ha =~= hex(a).take(hex(a).len() - 2));
        assert(hb =~= hex(b).take(hex(b).len() - 2));
        lema_hex_inyectiva(a.drop_last(), b.drop_last());
        assert(a =~= a.drop_last().push(x));
        assert(b =~= b.drop_last().push(y));
    } else {
        assert(a =~= b);
    }
}

/// Two hexadecimal digits per byte.
proof fn lema_hex_largo(a: Seq<u8>)
    ensures
        hex(a).len() == 2 * a.len(),
    decreases a.len(),
{
    if a.len() > 0 {
        lema_hex_largo(a.drop_last());
    }
}

/// The SHA-256 digest of the content of a block with these fields.
pub open spec fn digest_de(
    index: u64,
    timestamp: u64,
    data: Seq<char>,
    hash_anterior: Seq<char>,
    nonce: u64,
) -> Seq<u8> {
    sha256(encode_utf8(contenido(index, timestamp, data, hash_anterior, nonce)))
}

/// A valid block whose data is changed, its stored hash kept, stays valid
/// only if the old and the new contents have the same SHA-256 digest (a
/// collision): changing a field is detected unless SHA-256 collides.
pub proof fn ley_manipulacion(intacto: Bloque, manipulado: Bloque, d: nat)
    requires
        intacto.valido(d),
        manipulado.index == intacto.index,
        manipulado.timestamp == intacto.timestamp,
        manipulado.hash_anterior@ == intacto.hash_anterior@,
        manipulado.nonce == intacto.nonce,
        manipulado.hash@ == intacto.hash@,
        manipulado.valido(d),
    ensures
        digest_de(
            manipulado.index,
            manipulado.timestamp,
            manipulado.data@,
            manipulado.hash_anterior@,
            manipulado.nonce,
        ) == digest_de(
            intacto.index,
            intacto.timestamp,
            intacto.data@,
            intacto.hash_anterior@,
            intacto.nonce,
        ),
{
    lema_hex_inyectiva(
        digest_de(
            manipulado.index,
            manipulado.timestamp,
            manipulado.data@,
            manipulado.hash_anterior@,
            manipulado.nonce,
        ),
        digest_de(
            intacto.index,
            intacto.timestamp,
            intacto.data@,
            intacto.hash_anterior@,
            intacto.nonce,
        ),
    );
}

/// In a valid chain, changing the data of a block (keeping its stored
/// hash) leaves the chain valid only on a SHA-256 collision between the
/// old and the new contents of that block.
pub proof fn ley_manipulacion_cadena(bs: Seq<Bloque>, i: int, manipulado: Bloque, d: nat)
    requires
        cadena_valida(bs, d),
        0 <= i < bs.len(),
        manipulado.index == bs[i].index,
        manipulado.timestamp == bs[i].timestamp,
        manipulado.hash_anterior@ == bs[i].hash_anterior@,
        manipulado.nonce == bs[i].nonce,
        manipulado.hash@ == bs[i].hash@,
        cadena_valida(bs.update(i, manipulado), d),
    ensures
        digest_de(
            manipulado.index,
            manipulado.timestamp,
            manipulado.data@,
            manipulado.hash_anterior@,
            manipulado.nonce,
        ) == digest_de(
            bs[i].index,
            bs[i].timestamp,
            bs[i].data@,
            bs[i].hash_anterior@,
            bs[i].nonce,
        ),
{
    assert(eslabon_valido(bs, i, d));
    assert(eslabon_valido(bs.update(i, manipulado), i, d));
    ley_manipulacion(bs[i], manipulado, if i == 0 { 0 } else { d });
}

/// In a valid chain, replacing a block that has a successor by one with a
/// different stored hash (mined again, say) breaks the chain: the next
/// block still names the old hash.
pub proof fn ley_reminado_rompe_enlace(bs: Seq<Bloque>, i: int, nuevo: Bloque, d: nat)
    requires
        cadena_valida(bs, d),
        0 <= i < bs.len() - 1,
        nuevo.hash@ != bs[i].hash@,
    ensures
        !cadena_valida(bs.update(i, nuevo), d),
{
    assert(eslabon_valido(bs, i + 1, d));
    if cadena_valida(bs.update(i, nuevo), d) {
        assert(eslabon_valido(bs.update(i, nuevo), i + 1, d));
    }
}

/// A hash that meets a difficulty meets every lower one: more difficulty
/// asks for more leading zeros, never fewer.
pub proof fn ley_dificultad_monotona(h: Seq<char>, d: nat, e: nat)
    requires
        cumple(h, d),
        e <= d,
    ensures
        cumple(h, e),
{
}

/// Mining the same block for a higher difficulty never ends on a smaller
/// nonce: more difficulty takes at least as many attempts.
pub proof fn ley_mas_dificultad_mas_intentos(
    antes: Bloque,
    facil: Bloque,
    dificil: Bloque,
    d: nat,
    e: nat,
)
    requires
        d <= e,
        Bloque::minado(antes, facil, d),
        Bloque::minado(antes, dificil, e),
    ensures
        facil.nonce <= dificil.nonce,
{
    assert(dificil.hash@ == antes.hash_con_nonce(dificil.nonce));
    if antes.valido(e) {
        assert(antes.valido(d));
    } else if !antes.valido(d) && dificil.nonce < facil.nonce {
        assert(!cumple(antes.hash_con_nonce(dificil.nonce), d));
    }
}

/// What a valid chain is, said of its blocks: each stored hash is the
/// SHA-256 hash of the block's own fields; each block after the first has a
/// hash that starts with `d` zeros (the genesis block needs none) and stores
/// the hash of the block before it. A chain with these properties is valid,
/// and only such a chain.
pub proof fn ley_cadena_valida(bs: Seq<Bloque>, d: nat)
    ensures
        cadena_valida(bs, d) <==> forall|i: int|
            0 <= i < bs.len() ==> {
                &&& (#[trigger] bs[i]).hash@ == hash_de(
                    bs[i].index,
                    bs[i].timestamp,
                    bs[i].data@,
                    bs[i].hash_anterior@,
                    bs[i].nonce,
                )
                &&& i > 0 ==> d <= bs[i].hash@.len() && forall|j: int|
                    0 <= j < d ==> bs[i].hash@[j] == '0'
                &&& i > 0 ==> bs[i].hash_anterior@ == bs[i - 1].hash@
            },
{
    if cadena_valida(bs, d) {
        assert forall|i: int| 0 <= i < bs.len() implies {
            &&& (#[trigger] bs[i]).hash@ == hash_de(
                bs[i].index,
                bs[i].timestamp,
                bs[i].data@,
                bs[i].hash_anterior@,
                bs[i].nonce,
            )
            &&& i > 0 ==> d <= bs[i].hash@.len() && forall|j: int|
                0 <= j < d ==> bs[i].hash@[j] == '0'
            &&& i > 0 ==> bs[i].hash_anterior@ == bs[i - 1].hash@
        } by {
            assert(eslabon_valido(bs, i, d));
        }
    }
    if forall|i: int|
        0 <= i < bs.len() ==> {
            &&& (#[trigger] bs[i]).hash@ == hash_de(
                bs[i].index,
                bs[i].timestamp,
                bs[i].data@,
                bs[i].hash_anterior@,
                bs[i].nonce,
            )
            &&& i > 0 ==> d <= bs[i].hash@.len() && forall|j: int|
                0 <= j < d ==> bs[i].hash@[j] == '0'
            &&& i > 0 ==> bs[i].hash_anterior@ == bs[i - 1].hash@
        } {
        assert forall|i: int| 0 <= i < bs.len() implies #[trigger] eslabon_valido(bs, i, d) by {
            assert(bs[i].hash@ == bs[i].hash_calculado());
        }
    }
}

} // verus!
