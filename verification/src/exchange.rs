//! The exchange registry and per-exchange routing.
//!
//! `Exchanges` owns the broker-wide mapping from exchange name to its
//! record; `declare` implements the passive/equivalent/divergent rules,
//! and `route_queues` yields the queues a message reaches under the
//! exchange's type: `direct` by equal routing key, `fanout` to every
//! binding, `topic` by pattern (`*` one word, `#` any number), and
//! `headers` by `x-match` on the message headers.

use vstd::prelude::*;
use crate::value::TableEntry;
use crate::value::TableValue;
use crate::RuntimeError;
use crate::ErrorScope;

verus! {

/// The four exchange types of the profile.
#[derive(Clone, Copy, PartialEq, Eq, Structural)]
pub enum ExchangeType {
    Direct,
    Fanout,
    Topic,
    Headers,
}

/// A routing rule attaching a queue to an exchange.
pub struct Binding {
    pub queue: Vec<u8>,
    pub routing_key: Vec<u8>,
    pub arguments: Vec<TableEntry>,
}

/// One exchange: its declared properties and its bindings.
pub struct Exchange {
    pub name: Vec<u8>,
    pub etype: ExchangeType,
    pub durable: bool,
    pub auto_delete: bool,
    pub internal: bool,
    pub bindings: Vec<Binding>,
}

/// The broker-wide exchange registry.
pub struct Exchanges {
    pub list: Vec<Exchange>,
}

/// The index of the exchange with this name, or -1.
pub open spec fn exchange_idx(s: Seq<Exchange>, name: Seq<u8>) -> int
    decreases s.len(),
{
    if s.len() == 0 {
        -1
    } else if s[0].name@ == name {
        0
    } else {
        let r = exchange_idx(s.skip(1), name);
        if r == -1 {
            -1
        } else {
            1 + r
        }
    }
}

pub open spec fn has_exchange(s: Seq<Exchange>, name: Seq<u8>) -> bool {
    exchange_idx(s, name) >= 0
}

/// A found index lies in range and names the exchange.
pub proof fn lemma_exchange_idx(s: Seq<Exchange>, name: Seq<u8>)
    ensures
        exchange_idx(s, name) >= 0 ==> exchange_idx(s, name) < s.len() && s[exchange_idx(
            s,
            name,
        )].name@ == name,
    decreases s.len(),
{
    if s.len() > 0 && s[0].name@ != name {
        lemma_exchange_idx(s.skip(1), name);
    }
}

/// Two declarations are equivalent when every declared property agrees.
pub open spec fn same_props(a: Exchange, b: Exchange) -> bool {
    &&& a.etype == b.etype
    &&& a.durable == b.durable
    &&& a.auto_delete == b.auto_delete
    &&& a.internal == b.internal
}

/// Compare two byte strings.
pub fn bytes_eq(a: &[u8], b: &[u8]) -> (r: bool)
    ensures
        r == (a@ == b@),
{
    if a.len() != b.len() {
        assert(a@ != b@);
        return false;
    }
    let n = a.len();
    let mut i: usize = 0;
    while i < n
        invariant
            i <= n,
            n == a@.len() == b@.len(),
            forall|k: int| 0 <= k < i ==> a@[k] == b@[k],
        decreases n - i,
    {
        if a[i] != b[i] {
            return false;
        }
        i = i + 1;
    }
    assert(a@ =~= b@);
    true
}

impl Exchanges {
    /// An empty registry.
    pub fn new() -> (r: Exchanges)
        ensures
            r.list@.len() == 0,
    {
        Exchanges { list: Vec::new() }
    }

    /// Find an exchange by name.
    fn find_from(&self, name: &[u8], i: usize) -> (r: Option<usize>)
        requires
            i <= self.list@.len(),
        ensures
            match r {
                Some(j) => {
                    &&& i <= j < self.list@.len()
                    &&& exchange_idx(self.list@.skip(i as int), name@) == j - i
                },
                None => exchange_idx(self.list@.skip(i as int), name@) == -1,
            },
        decreases self.list@.len() - i,
    {
        if i == self.list.len() {
            assert(self.list@.skip(i as int) =~= Seq::<Exchange>::empty());
            return None;
        }
        assert(self.list@.skip(i as int)[0] == self.list@[i as int]);
        assert(self.list@.skip(i as int).skip(1) =~= self.list@.skip(i + 1));
        if bytes_eq(self.list[i].name.as_slice(), name) {
            Some(i)
        } else {
            self.find_from(name, i + 1)
        }
    }

    /// Find an exchange by name.
    pub fn lookup(&self, name: &[u8]) -> (r: Option<usize>)
        ensures
            match r {
                Some(j) => j == exchange_idx(self.list@, name@) && j < self.list@.len()
                    && self.list@[j as int].name@ == name@,
                None => !has_exchange(self.list@, name@),
            },
    {
        let r = self.find_from(name, 0);
        proof {
            assert(self.list@.skip(0) =~= self.list@);
            lemma_exchange_idx(self.list@, name@);
        }
        r
    }

    /// Declare an exchange, as the registry rules demand: absent and
    /// not passive creates it; absent and passive is `404`; present
    /// and equivalent succeeds; present and divergent is `406`.
    pub fn declare(&mut self, ex: Exchange, passive: bool) -> (r: Result<usize, RuntimeError>)
        ensures
            ({
                let idx = exchange_idx(old(self).list@, ex.name@);
                if idx < 0 {
                    if passive {
                        &&& r is Err
                        &&& r->Err_0.code == 404
                        &&& r->Err_0.scope == ErrorScope::Channel
                        &&& r->Err_0.class_method == crate::frame::EXCHANGE_DECLARE
                        &&& final(self).list@ == old(self).list@
                    } else {
                        &&& r is Ok
                        &&& final(self).list@ == old(self).list@.push(ex)
                    }
                } else {
                    if same_props(old(self).list@[idx], ex) {
                        &&& r is Ok
                        &&& r->Ok_0 == idx
                        &&& final(self).list@ == old(self).list@
                    } else {
                        &&& r is Err
                        &&& r->Err_0.code == 406
                        &&& r->Err_0.scope == ErrorScope::Channel
                        &&& r->Err_0.class_method == crate::frame::EXCHANGE_DECLARE
                        &&& final(self).list@ == old(self).list@
                    }
                }
            }),
    {
        match self.lookup(ex.name.as_slice()) {
            None => {
                if passive {
                    Err(RuntimeError {
                        scope: ErrorScope::Channel,
                        code: 404,
                        text: String::from_str("Exchange not found"),
                        class_method: crate::frame::EXCHANGE_DECLARE,
                    })
                } else {
                    let n = self.list.len();
                    self.list.push(ex);
                    Ok(n)
                }
            },
            Some(i) => {
                let cur = &self.list[i];
                let equal = match (cur.etype, ex.etype) {
                    (ExchangeType::Direct, ExchangeType::Direct) => true,
                    (ExchangeType::Fanout, ExchangeType::Fanout) => true,
                    (ExchangeType::Topic, ExchangeType::Topic) => true,
                    (ExchangeType::Headers, ExchangeType::Headers) => true,
                    _ => false,
                };
                let equal = equal && cur.durable == ex.durable && cur.auto_delete == ex.auto_delete
                    && cur.internal == ex.internal;
                if equal {
                    Ok(i)
                } else {
                    Err(RuntimeError {
                        scope: ErrorScope::Channel,
                        code: 406,
                        text: String::from_str("Exchange exists but properties are different"),
                        class_method: crate::frame::EXCHANGE_DECLARE,
                    })
                }
            },
        }
    }

    /// Install a binding on a named exchange; `404` if it is missing.
    /// Bindings form a set: a bind that already stands changes nothing.
    pub fn bind_queue(&mut self, exchange_name: &[u8], binding: Binding) -> (r: Result<
        (),
        RuntimeError,
    >)
        ensures
            ({
                let idx = exchange_idx(old(self).list@, exchange_name@);
                if idx < 0 {
                    &&& r is Err
                    &&& r->Err_0.code == 404
                    &&& r->Err_0.scope == ErrorScope::Channel
                    &&& r->Err_0.class_method == crate::frame::QUEUE_BIND
                    &&& final(self).list@ == old(self).list@
                } else if binding_present(
                    old(self).list@[idx].bindings@,
                    binding.queue@,
                    binding.routing_key@,
                    binding.arguments@,
                ) {
                    &&& r is Ok
                    &&& final(self).list@ == old(self).list@
                } else {
                    &&& r is Ok
                    &&& final(self).list@.len() == old(self).list@.len()
                    &&& (forall|k: int|
                        0 <= k < old(self).list@.len() && k != idx ==> final(self).list@[k] == old(
                            self,
                        ).list@[k])
                    &&& final(self).list@[idx].name == old(self).list@[idx].name
                    &&& final(self).list@[idx].etype == old(self).list@[idx].etype
                    &&& final(self).list@[idx].durable == old(self).list@[idx].durable
                    &&& final(self).list@[idx].auto_delete == old(self).list@[idx].auto_delete
                    &&& final(self).list@[idx].internal == old(self).list@[idx].internal
                    &&& final(self).list@[idx].bindings@ == old(self).list@[idx].bindings@.push(
                        binding,
                    )
                }
            }),
    {
        match self.lookup(exchange_name) {
            None => Err(RuntimeError {
                scope: ErrorScope::Channel,
                code: 404,
                text: String::from_str("Exchange not found"),
                class_method: crate::frame::QUEUE_BIND,
            }),
            Some(i) => {
                let already = binding_present_from(&self.list[i].bindings, &binding, 0);
                proof {
                    assert(self.list@[i as int].bindings@.skip(0) =~= self.list@[
                    i as int].bindings@);
                }
                if already {
                    return Ok(());
                }
                let mut ex = self.list.remove(i);
                ex.bindings.push(binding);
                self.list.insert(i, ex);
                proof {
                    assert(final(self).list@[i as int].bindings@ == old(self).list@[
                    i as int].bindings@.push(binding));
                    assert(forall|k: int|
                        0 <= k < old(self).list@.len() && k != i ==> final(self).list@[k] == old(
                            self,
                        ).list@[k]);
                }
                Ok(())
            },
        }
    }
}


// ---------------------------------------------------------------------
// Routing.
// ---------------------------------------------------------------------

/// The views of a list of byte strings.
pub open spec fn byte_seqs_view(w: Seq<Vec<u8>>) -> Seq<Seq<u8>> {
    Seq::new(w.len(), |i: int| w[i]@)
}

/// The offset of the first dot, or the length if there is none.
pub open spec fn first_dot(s: Seq<u8>) -> int
    decreases s.len(),
{
    if s.len() == 0 {
        0
    } else if s[0] == 46 {
        0
    } else {
        1 + first_dot(s.skip(1))
    }
}

/// The first-dot offset lies in range, everything before it is no dot,
/// and what it points at (if in range) is one.
pub proof fn lemma_first_dot(s: Seq<u8>)
    ensures
        0 <= first_dot(s) <= s.len(),
        forall|m: int| 0 <= m < first_dot(s) ==> s[m] != 46,
        first_dot(s) < s.len() ==> s[first_dot(s)] == 46,
    decreases s.len(),
{
    if s.len() > 0 && s[0] != 46 {
        lemma_first_dot(s.skip(1));
        assert forall|m: int| 0 <= m < first_dot(s) implies s[m] != 46 by {
            if m > 0 {
                assert(s.skip(1)[m - 1] != 46);
            }
        };
    }
}

/// The first-dot offset from known facts about a prefix.
pub proof fn lemma_first_dot_at(s: Seq<u8>, n: int)
    requires
        0 <= n <= s.len(),
        forall|m: int| 0 <= m < n ==> s[m] != 46,
        n == s.len() || s[n] == 46,
    ensures
        first_dot(s) == n,
    decreases n,
{
    if n > 0 {
        lemma_first_dot_at(s.skip(1), n - 1);
    }
}

/// A routing key or pattern, split at the dots.
pub open spec fn split_words(s: Seq<u8>) -> Seq<Seq<u8>>
    decreases s.len(),
    via split_words_decreases
{
    if first_dot(s) >= s.len() {
        seq![s]
    } else {
        seq![s.take(first_dot(s))] + split_words(s.skip(first_dot(s) + 1))
    }
}

#[via_fn]
proof fn split_words_decreases(s: Seq<u8>) {
    lemma_first_dot(s);
}

/// Split a routing key at its dots.
fn split_from(s: &Vec<u8>, i: usize) -> (r: Vec<Vec<u8>>)
    requires
        i <= s@.len(),
    ensures
        byte_seqs_view(r@) == split_words(s@.skip(i as int)),
    decreases s@.len() - i,
{
    let n = s.len();
    let mut j: usize = i;
    while j < n && s[j] != 46
        invariant
            i <= j <= n,
            n == s@.len(),
            forall|m: int| i <= m < j ==> s@[m] != 46,
        decreases n - j,
    {
        j = j + 1;
    }
    proof {
        let t = s@.skip(i as int);
        assert forall|m: int| 0 <= m < j - i implies t[m] != 46 by {
            assert(s@[i + m] != 46);
        };
        lemma_first_dot_at(t, j - i);
    }
    let word = vstd::slice::slice_to_vec(vstd::slice::slice_subrange(s.as_slice(), i, j));
    assert(word@ =~= s@.skip(i as int).take(j - i));
    if j == n {
        let mut r: Vec<Vec<u8>> = Vec::new();
        r.push(word);
        proof {
            assert(s@.skip(i as int).take(j - i) =~= s@.skip(i as int));
            assert(byte_seqs_view(r@) =~= split_words(s@.skip(i as int)));
        }
        r
    } else {
        let mut r = split_from(s, j + 1);
        let ghost restv = r@;
        r.insert(0, word);
        proof {
            let t = s@.skip(i as int);
            assert(t.skip(j - i + 1) =~= s@.skip(j + 1));
            assert(r@ =~= seq![word].add(restv));
            assert(byte_seqs_view(r@) =~= split_words(t));
        }
        r
    }
}

/// Split a whole routing key at its dots.
pub fn split_key(s: &Vec<u8>) -> (r: Vec<Vec<u8>>)
    ensures
        byte_seqs_view(r@) == split_words(s@),
{
    let r = split_from(s, 0);
    assert(s@.skip(0) =~= s@);
    r
}

/// AMQP topic matching over word lists: `*` matches one word, `#`
/// matches any number of words, and any other word only itself.
pub open spec fn topic_match(p: Seq<Seq<u8>>, k: Seq<Seq<u8>>) -> bool
    decreases p.len(), k.len(),
{
    if p.len() == 0 {
        k.len() == 0
    } else if p[0] =~= seq![35u8] {
        topic_match(p.skip(1), k) || (k.len() > 0 && topic_match(p, k.skip(1)))
    } else if k.len() == 0 {
        false
    } else {
        (p[0] =~= seq![42u8] || p[0] == k[0]) && topic_match(p.skip(1), k.skip(1))
    }
}

/// Whether a word is the one-byte word with this byte.
fn is_byte_word(w: &Vec<u8>, b: u8) -> (r: bool)
    ensures
        r == (w@ =~= seq![b]),
{
    if w.len() == 1 && w[0] == b {
        assert(w@ =~= seq![b]);
        true
    } else {
        assert(!(w@ =~= seq![b]));
        false
    }
}

/// Topic matching from the given word offsets on.
fn topic_match_from(p: &Vec<Vec<u8>>, k: &Vec<Vec<u8>>, pi: usize, ki: usize) -> (r: bool)
    requires
        pi <= p@.len(),
        ki <= k@.len(),
    ensures
        r == topic_match(
            byte_seqs_view(p@).skip(pi as int),
            byte_seqs_view(k@).skip(ki as int),
        ),
    decreases p@.len() - pi, k@.len() - ki,
{
    let ghost pv = byte_seqs_view(p@).skip(pi as int);
    let ghost kv = byte_seqs_view(k@).skip(ki as int);
    proof {
        if pi < p@.len() {
            assert(pv[0] == p@[pi as int]@);
            assert(pv.skip(1) =~= byte_seqs_view(p@).skip(pi + 1));
        }
        if ki < k@.len() {
            assert(kv[0] == k@[ki as int]@);
            assert(kv.skip(1) =~= byte_seqs_view(k@).skip(ki + 1));
        }
    }
    if pi == p.len() {
        return ki == k.len();
    }
    if is_byte_word(&p[pi], 35) {
        if topic_match_from(p, k, pi + 1, ki) {
            return true;
        }
        if ki < k.len() {
            return topic_match_from(p, k, pi, ki + 1);
        }
        return false;
    }
    if ki == k.len() {
        return false;
    }
    let head_ok = is_byte_word(&p[pi], 42) || bytes_eq(p[pi].as_slice(), k[ki].as_slice());
    if !head_ok {
        return false;
    }
    topic_match_from(p, k, pi + 1, ki + 1)
}

/// Whether a pattern matches a routing key, both given as byte strings.
pub fn topic_key_match(pattern: &Vec<u8>, key: &Vec<u8>) -> (r: bool)
    ensures
        r == topic_match(split_words(pattern@), split_words(key@)),
{
    let p = split_key(pattern);
    let k = split_key(key);
    let r = topic_match_from(&p, &k, 0, 0);
    proof {
        assert(byte_seqs_view(p@).skip(0) =~= byte_seqs_view(p@));
        assert(byte_seqs_view(k@).skip(0) =~= byte_seqs_view(k@));
    }
    r
}

// ---------------------------------------------------------------------
// Header matching.
// ---------------------------------------------------------------------

/// Two table values are the same value.
pub open spec fn tv_eq(a: TableValue, b: TableValue) -> bool {
    match (a, b) {
        (TableValue::Bool(x), TableValue::Bool(y)) => x == y,
        (TableValue::U8(x), TableValue::U8(y)) => x == y,
        (TableValue::U16(x), TableValue::U16(y)) => x == y,
        (TableValue::U32(x), TableValue::U32(y)) => x == y,
        (TableValue::U64(x), TableValue::U64(y)) => x == y,
        (TableValue::I8(x), TableValue::I8(y)) => x == y,
        (TableValue::I16(x), TableValue::I16(y)) => x == y,
        (TableValue::I32(x), TableValue::I32(y)) => x == y,
        (TableValue::I64(x), TableValue::I64(y)) => x == y,
        (TableValue::SimpleString(x), TableValue::SimpleString(y)) => x@ == y@,
        (TableValue::LongString(x), TableValue::LongString(y)) => x@ == y@,
        (TableValue::Timestamp(x), TableValue::Timestamp(y)) => x == y,
        _ => false,
    }
}

/// Compare two table values.
pub fn tv_eq_exec(a: &TableValue, b: &TableValue) -> (r: bool)
    ensures
        r == tv_eq(*a, *b),
{
    match (a, b) {
        (TableValue::Bool(x), TableValue::Bool(y)) => *x == *y,
        (TableValue::U8(x), TableValue::U8(y)) => *x == *y,
        (TableValue::U16(x), TableValue::U16(y)) => *x == *y,
        (TableValue::U32(x), TableValue::U32(y)) => *x == *y,
        (TableValue::U64(x), TableValue::U64(y)) => *x == *y,
        (TableValue::I8(x), TableValue::I8(y)) => *x == *y,
        (TableValue::I16(x), TableValue::I16(y)) => *x == *y,
        (TableValue::I32(x), TableValue::I32(y)) => *x == *y,
        (TableValue::I64(x), TableValue::I64(y)) => *x == *y,
        (TableValue::SimpleString(x), TableValue::SimpleString(y)) => bytes_eq(
            x.as_slice(),
            y.as_slice(),
        ),
        (TableValue::LongString(x), TableValue::LongString(y)) => bytes_eq(
            x.as_slice(),
            y.as_slice(),
        ),
        (TableValue::Timestamp(x), TableValue::Timestamp(y)) => *x == *y,
        _ => false,
    }
}

/// Two table entries carry the same key and value.
pub open spec fn entry_eq(a: TableEntry, b: TableEntry) -> bool {
    &&& a.key@ == b.key@
    &&& tv_eq(a.value, b.value)
}

/// Two tables are the same sequence of entries.
pub open spec fn table_eq(a: Seq<TableEntry>, b: Seq<TableEntry>) -> bool
    decreases a.len(),
{
    if a.len() != b.len() {
        false
    } else if a.len() == 0 {
        true
    } else {
        entry_eq(a[0], b[0]) && table_eq(a.skip(1), b.skip(1))
    }
}

/// A binding with this queue, routing key and argument table already
/// stands in the list.
pub open spec fn binding_present(
    bs: Seq<Binding>,
    queue: Seq<u8>,
    routing_key: Seq<u8>,
    arguments: Seq<TableEntry>,
) -> bool
    decreases bs.len(),
{
    bs.len() > 0 && ((bs[0].queue@ == queue && bs[0].routing_key@ == routing_key && table_eq(
        bs[0].arguments@,
        arguments,
    )) || binding_present(bs.skip(1), queue, routing_key, arguments))
}

fn table_eq_from(a: &Vec<TableEntry>, b: &Vec<TableEntry>, i: usize) -> (r: bool)
    requires
        i <= a@.len(),
        a@.len() == b@.len(),
    ensures
        r == table_eq(a@.skip(i as int), b@.skip(i as int)),
    decreases a@.len() - i,
{
    if i == a.len() {
        assert(a@.skip(i as int) =~= Seq::<TableEntry>::empty());
        assert(b@.skip(i as int) =~= Seq::<TableEntry>::empty());
        return true;
    }
    assert(a@.skip(i as int)[0] == a@[i as int]);
    assert(b@.skip(i as int)[0] == b@[i as int]);
    assert(a@.skip(i as int).skip(1) =~= a@.skip(i + 1));
    assert(b@.skip(i as int).skip(1) =~= b@.skip(i + 1));
    let head = bytes_eq(a[i].key.as_slice(), b[i].key.as_slice()) && tv_eq_exec(
        &a[i].value,
        &b[i].value,
    );
    head && table_eq_from(a, b, i + 1)
}

/// Compare two argument tables entry by entry.
pub fn table_eq_exec(a: &Vec<TableEntry>, b: &Vec<TableEntry>) -> (r: bool)
    ensures
        r == table_eq(a@, b@),
{
    if a.len() != b.len() {
        return false;
    }
    let r = table_eq_from(a, b, 0);
    proof {
        assert(a@.skip(0) =~= a@);
        assert(b@.skip(0) =~= b@);
    }
    r
}

fn binding_present_from(bs: &Vec<Binding>, b: &Binding, i: usize) -> (r: bool)
    requires
        i <= bs@.len(),
    ensures
        r == binding_present(bs@.skip(i as int), b.queue@, b.routing_key@, b.arguments@),
    decreases bs@.len() - i,
{
    if i == bs.len() {
        assert(bs@.skip(i as int) =~= Seq::<Binding>::empty());
        return false;
    }
    assert(bs@.skip(i as int)[0] == bs@[i as int]);
    assert(bs@.skip(i as int).skip(1) =~= bs@.skip(i + 1));
    let head = bytes_eq(bs[i].queue.as_slice(), b.queue.as_slice()) && bytes_eq(
        bs[i].routing_key.as_slice(),
        b.routing_key.as_slice(),
    ) && table_eq_exec(&bs[i].arguments, &b.arguments);
    head || binding_present_from(bs, b, i + 1)
}

/// The value under a key in a table, first match.
pub open spec fn table_get(t: Seq<TableEntry>, key: Seq<u8>) -> Option<TableValue>
    decreases t.len(),
{
    if t.len() == 0 {
        None
    } else if t[0].key@ == key {
        Some(t[0].value)
    } else {
        table_get(t.skip(1), key)
    }
}

/// Look a key up in a table.
fn table_get_from(t: &Vec<TableEntry>, key: &[u8], i: usize) -> (r: Option<usize>)
    requires
        i <= t@.len(),
    ensures
        match r {
            Some(j) => i <= j < t@.len() && table_get(t@.skip(i as int), key@) == Some(
                t@[j as int].value,
            ),
            None => table_get(t@.skip(i as int), key@) is None,
        },
    decreases t@.len() - i,
{
    if i == t.len() {
        assert(t@.skip(i as int) =~= Seq::<TableEntry>::empty());
        return None;
    }
    assert(t@.skip(i as int)[0] == t@[i as int]);
    assert(t@.skip(i as int).skip(1) =~= t@.skip(i + 1));
    if bytes_eq(t[i].key.as_slice(), key) {
        Some(i)
    } else {
        table_get_from(t, key, i + 1)
    }
}

/// Whether the key asks nothing of the message (an `x-` key).
pub open spec fn is_x_key(k: Seq<u8>) -> bool {
    k.len() >= 2 && k[0] == 120 && k[1] == 45
}

fn is_x_key_exec(k: &Vec<u8>) -> (r: bool)
    ensures
        r == is_x_key(k@),
{
    k.len() >= 2 && k[0] == 120 && k[1] == 45
}

/// One binding argument holds of the message headers.
pub open spec fn entry_holds(hdrs: Seq<TableEntry>, e: TableEntry) -> bool {
    match table_get(hdrs, e.key@) {
        Some(v) => tv_eq(v, e.value),
        None => false,
    }
}

fn entry_holds_exec(hdrs: &Vec<TableEntry>, e: &TableEntry) -> (r: bool)
    ensures
        r == entry_holds(hdrs@, *e),
{
    let r = table_get_from(hdrs, e.key.as_slice(), 0);
    assert(hdrs@.skip(0) =~= hdrs@);
    match r {
        Some(j) => tv_eq_exec(&hdrs[j].value, &e.value),
        None => false,
    }
}

/// Every non-`x-` binding argument holds of the headers.
pub open spec fn headers_all(bs: Seq<TableEntry>, hdrs: Seq<TableEntry>) -> bool
    decreases bs.len(),
{
    if bs.len() == 0 {
        true
    } else {
        (is_x_key(bs[0].key@) || entry_holds(hdrs, bs[0])) && headers_all(bs.skip(1), hdrs)
    }
}

/// Some non-`x-` binding argument holds of the headers.
pub open spec fn headers_any(bs: Seq<TableEntry>, hdrs: Seq<TableEntry>) -> bool
    decreases bs.len(),
{
    if bs.len() == 0 {
        false
    } else {
        (!is_x_key(bs[0].key@) && entry_holds(hdrs, bs[0])) || headers_any(bs.skip(1), hdrs)
    }
}

/// The binding asks for `x-match: any`; anything else means `all`.
pub open spec fn x_match_any(bs: Seq<TableEntry>) -> bool {
    match table_get(bs, seq![120u8, 45u8, 109u8, 97u8, 116u8, 99u8, 104u8]) {
        Some(TableValue::SimpleString(v)) => v@ == seq![97u8, 110u8, 121u8],
        Some(TableValue::LongString(v)) => v@ == seq![97u8, 110u8, 121u8],
        _ => false,
    }
}

/// Whether a headers binding matches the message headers.
pub open spec fn headers_match(bs: Seq<TableEntry>, hdrs: Seq<TableEntry>) -> bool {
    if x_match_any(bs) {
        headers_any(bs, hdrs)
    } else {
        headers_all(bs, hdrs)
    }
}

fn headers_all_from(bs: &Vec<TableEntry>, hdrs: &Vec<TableEntry>, i: usize) -> (r: bool)
    requires
        i <= bs@.len(),
    ensures
        r == headers_all(bs@.skip(i as int), hdrs@),
    decreases bs@.len() - i,
{
    if i == bs.len() {
        assert(bs@.skip(i as int) =~= Seq::<TableEntry>::empty());
        return true;
    }
    assert(bs@.skip(i as int)[0] == bs@[i as int]);
    assert(bs@.skip(i as int).skip(1) =~= bs@.skip(i + 1));
    let head = is_x_key_exec(&bs[i].key) || entry_holds_exec(hdrs, &bs[i]);
    head && headers_all_from(bs, hdrs, i + 1)
}

fn headers_any_from(bs: &Vec<TableEntry>, hdrs: &Vec<TableEntry>, i: usize) -> (r: bool)
    requires
        i <= bs@.len(),
    ensures
        r == headers_any(bs@.skip(i as int), hdrs@),
    decreases bs@.len() - i,
{
    if i == bs.len() {
        assert(bs@.skip(i as int) =~= Seq::<TableEntry>::empty());
        return false;
    }
    assert(bs@.skip(i as int)[0] == bs@[i as int]);
    assert(bs@.skip(i as int).skip(1) =~= bs@.skip(i + 1));
    let head = !is_x_key_exec(&bs[i].key) && entry_holds_exec(hdrs, &bs[i]);
    head || headers_any_from(bs, hdrs, i + 1)
}

/// Whether a headers binding matches the message headers.
pub fn headers_match_exec(bs: &Vec<TableEntry>, hdrs: &Vec<TableEntry>) -> (r: bool)
    ensures
        r == headers_match(bs@, hdrs@),
{
    let mut xmatch: Vec<u8> = Vec::new();
    xmatch.push(120);
    xmatch.push(45);
    xmatch.push(109);
    xmatch.push(97);
    xmatch.push(116);
    xmatch.push(99);
    xmatch.push(104);
    assert(xmatch@ =~= seq![120u8, 45u8, 109u8, 97u8, 116u8, 99u8, 104u8]);
    let got = table_get_from(bs, xmatch.as_slice(), 0);
    assert(bs@.skip(0) =~= bs@);
    let any = match got {
        Some(j) => {
            let mut anyword: Vec<u8> = Vec::new();
            anyword.push(97);
            anyword.push(110);
            anyword.push(121);
            assert(anyword@ =~= seq![97u8, 110u8, 121u8]);
            match &bs[j].value {
                TableValue::SimpleString(v) => bytes_eq(v.as_slice(), anyword.as_slice()),
                TableValue::LongString(v) => bytes_eq(v.as_slice(), anyword.as_slice()),
                _ => false,
            }
        },
        None => false,
    };
    assert(any == x_match_any(bs@));
    if any {
        headers_any_from(bs, hdrs, 0)
    } else {
        headers_all_from(bs, hdrs, 0)
    }
}

// ---------------------------------------------------------------------
// Route selection.
// ---------------------------------------------------------------------

/// Whether one binding matches a message under the exchange type.
pub open spec fn binding_matches(
    et: ExchangeType,
    b: Binding,
    key: Seq<u8>,
    hdrs: Seq<TableEntry>,
) -> bool {
    match et {
        ExchangeType::Direct => b.routing_key@ == key,
        ExchangeType::Fanout => true,
        ExchangeType::Topic => topic_match(split_words(b.routing_key@), split_words(key)),
        ExchangeType::Headers => headers_match(b.arguments@, hdrs),
    }
}

/// The queue names of the bindings that match, in binding order.
pub open spec fn matching_queues(
    et: ExchangeType,
    bs: Seq<Binding>,
    key: Seq<u8>,
    hdrs: Seq<TableEntry>,
) -> Seq<Seq<u8>>
    decreases bs.len(),
{
    if bs.len() == 0 {
        Seq::empty()
    } else if binding_matches(et, bs[0], key, hdrs) {
        seq![bs[0].queue@] + matching_queues(et, bs.skip(1), key, hdrs)
    } else {
        matching_queues(et, bs.skip(1), key, hdrs)
    }
}

fn route_from(ex: &Exchange, key: &Vec<u8>, hdrs: &Vec<TableEntry>, i: usize) -> (r: Vec<Vec<u8>>)
    requires
        i <= ex.bindings@.len(),
    ensures
        byte_seqs_view(r@) == matching_queues(ex.etype, ex.bindings@.skip(i as int), key@, hdrs@),
    decreases ex.bindings@.len() - i,
{
    if i == ex.bindings.len() {
        let r: Vec<Vec<u8>> = Vec::new();
        assert(ex.bindings@.skip(i as int) =~= Seq::<Binding>::empty());
        assert(byte_seqs_view(r@) =~= matching_queues(
            ex.etype,
            ex.bindings@.skip(i as int),
            key@,
            hdrs@,
        ));
        return r;
    }
    assert(ex.bindings@.skip(i as int)[0] == ex.bindings@[i as int]);
    assert(ex.bindings@.skip(i as int).skip(1) =~= ex.bindings@.skip(i + 1));
    let b = &ex.bindings[i];
    let hit = match ex.etype {
        ExchangeType::Direct => bytes_eq(b.routing_key.as_slice(), key.as_slice()),
        ExchangeType::Fanout => true,
        ExchangeType::Topic => topic_key_match(&b.routing_key, key),
        ExchangeType::Headers => headers_match_exec(&b.arguments, hdrs),
    };
    let mut rest = route_from(ex, key, hdrs, i + 1);
    if hit {
        let ghost restv = rest@;
        let q = vstd::slice::slice_to_vec(b.queue.as_slice());
        assert(q@ == ex.bindings@[i as int].queue@);
        rest.insert(0, q);
        proof {
            assert(rest@ =~= seq![q].add(restv));
            assert(byte_seqs_view(rest@) =~= matching_queues(
                ex.etype,
                ex.bindings@.skip(i as int),
                key@,
                hdrs@,
            ));
        }
    }
    rest
}

/// The queues a message with this routing key and these headers
/// reaches through the exchange, in binding order.
pub fn route_queues(ex: &Exchange, key: &Vec<u8>, hdrs: &Vec<TableEntry>) -> (r: Vec<Vec<u8>>)
    ensures
        byte_seqs_view(r@) == matching_queues(ex.etype, ex.bindings@, key@, hdrs@),
{
    let r = route_from(ex, key, hdrs, 0);
    assert(ex.bindings@.skip(0) =~= ex.bindings@);
    r
}

} // verus!
