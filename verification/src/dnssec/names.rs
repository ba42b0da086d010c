//! Domain names as lists of labels, and their canonical order.
use hickory_proto::rr::Name;
use vstd::prelude::*;

verus! {

/// A fully qualified domain name: its labels, the leftmost first, without the root.
#[derive(Debug)]
pub struct DnsName {
    pub labels: Vec<Vec<u8>>,
}

/// The labels of a name.
pub type NameV = Seq<Seq<u8>>;

pub open spec fn byte_views(list: Seq<Vec<u8>>) -> Seq<Seq<u8>> {
    list.map_values(|l: Vec<u8>| l@)
}

impl View for DnsName {
    type V = Seq<Seq<u8>>;

    open spec fn view(&self) -> Seq<Seq<u8>> {
        byte_views(self.labels@)
    }
}

#[verifier::external_type_specification]
#[verifier::external_body]
pub struct ExName(Name);

/// Takes the labels of a `hickory_proto::rr::Name`, which its `iter` hands out from the left and
/// without the root. Nothing is claimed of it here; what a name is read from is claimed where a
/// message or a record is decoded.
#[verifier::external_body]
pub(crate) fn labels_of(n: &Name) -> DnsName {
    DnsName { labels: n.iter().map(|l| l.to_vec()).collect() }
}

pub open spec fn lower_byte(b: u8) -> u8 {
    if 65 <= b <= 90 {
        (b + 32) as u8
    } else {
        b
    }
}

/// A label with its ASCII letters in lower case.
pub open spec fn folded(label: Seq<u8>) -> Seq<u8> {
    label.map_values(|b: u8| lower_byte(b))
}

/// The labels of a name with their ASCII letters in lower case.
pub open spec fn folded_name(n: NameV) -> NameV {
    n.map_values(|l: Seq<u8>| folded(l))
}

/// Names are the same whatever the case of their letters.
pub open spec fn is_same(a: NameV, b: NameV) -> bool {
    folded_name(a) == folded_name(b)
}

/// The order of byte strings, byte by byte; a prefix comes first.
pub open spec fn bytes_before(a: Seq<u8>, b: Seq<u8>) -> bool
    decreases a.len(),
{
    if b.len() == 0 {
        false
    } else if a.len() == 0 {
        true
    } else if a[0] != b[0] {
        a[0] < b[0]
    } else {
        bytes_before(a.skip(1), b.skip(1))
    }
}

/// The canonical order of names: by their rightmost labels first, without regard to case.
pub open spec fn is_before(a: NameV, b: NameV) -> bool
    decreases a.len(),
{
    if b.len() == 0 {
        false
    } else if a.len() == 0 {
        true
    } else if folded(a.last()) != folded(b.last()) {
        bytes_before(folded(a.last()), folded(b.last()))
    } else {
        is_before(a.drop_last(), b.drop_last())
    }
}

/// The label that stands for any other.
pub open spec fn asterisk() -> Seq<u8> {
    seq![42u8]
}

/// The number of labels, an asterisk at the front not counted.
pub open spec fn label_count(n: NameV) -> nat {
    if n.len() > 0 && n[0] == asterisk() {
        (n.len() - 1) as nat
    } else {
        n.len()
    }
}

/// The name's last `count` labels; the name itself where it has fewer.
pub open spec fn trimmed(n: NameV, count: nat) -> NameV {
    if count > n.len() {
        n
    } else {
        n.skip(n.len() - count)
    }
}

/// The ancestor of `q`, or `q` itself, that is one label longer than `encloser`.
pub open spec fn next_closer(q: NameV, encloser: NameV) -> NameV {
    trimmed(
        q,
        if label_count(q) > label_count(encloser) {
            label_count(encloser) + 1
        } else {
            label_count(encloser)
        },
    )
}

/// The number of bytes of a name on the wire.
pub open spec fn wire_length(n: NameV) -> nat
    decreases n.len(),
{
    if n.len() == 0 {
        1
    } else {
        wire_length(n.drop_last()) + n.last().len() + 1
    }
}

/// The name with an asterisk in front; there is none where it would be longer than a name may be.
pub open spec fn wildcard(n: NameV) -> Option<NameV> {
    if wire_length(n) + 2 <= 255 {
        Some(seq![asterisk()] + n)
    } else {
        None
    }
}

/// The name behind an asterisk at the front.
pub open spec fn behind_asterisk(n: NameV) -> Option<NameV> {
    if n.len() > 0 && n[0] == asterisk() {
        Some(n.skip(1))
    } else {
        None
    }
}

/// The name without its first label; the root has no parent.
pub open spec fn parent(n: NameV) -> Option<NameV> {
    if n.len() == 0 {
        None
    } else {
        Some(n.skip(1))
    }
}

pub open spec fn optional_name(n: Option<DnsName>) -> Option<NameV> {
    match n {
        Some(n) => Some(n@),
        None => None,
    }
}

/// Of two byte strings the one is before the other, or they are equal.
pub proof fn lemma_bytes_order(a: Seq<u8>, b: Seq<u8>)
    ensures
        bytes_before(a, b) ==> a != b && !bytes_before(b, a),
        a != b ==> bytes_before(a, b) || bytes_before(b, a),
    decreases a.len(),
{
    if a.len() > 0 && b.len() > 0 && a[0] == b[0] {
        lemma_bytes_order(a.skip(1), b.skip(1));
        if a.skip(1) == b.skip(1) {
            assert forall|i: int| 0 <= i < a.len() implies a[i] == b[i] by {
                if i > 0 {
                    assert(a.skip(1)[i - 1] == b.skip(1)[i - 1]);
                }
            }
            assert(a.len() == a.skip(1).len() + 1 && b.len() == b.skip(1).len() + 1);
            assert(a =~= b);
        }
    } else if a != b {
        assert(!(a.len() == 0 && b.len() == 0)) by {
            if a.len() == 0 && b.len() == 0 {
                assert(a =~= b);
            }
        }
    }
}

/// The canonical order is total: of two names that are not the same, exactly one is before the
/// other, and no name is before one that is the same.
pub proof fn lemma_name_order(a: NameV, b: NameV)
    ensures
        is_before(a, b) ==> !is_same(a, b) && !is_before(b, a),
        !is_same(a, b) ==> is_before(a, b) || is_before(b, a),
    decreases a.len(),
{
    let fa = folded_name(a);
    let fb = folded_name(b);
    if a.len() > 0 && b.len() > 0 {
        assert(fa.last() == folded(a.last()) && fb.last() == folded(b.last()));
        if folded(a.last()) == folded(b.last()) {
            lemma_name_order(a.drop_last(), b.drop_last());
            assert(folded_name(a.drop_last()) =~= fa.drop_last());
            assert(folded_name(b.drop_last()) =~= fb.drop_last());
            if fa.drop_last() == fb.drop_last() {
                assert(fa =~= fa.drop_last().push(fa.last()));
                assert(fb =~= fb.drop_last().push(fb.last()));
            }
        } else {
            lemma_bytes_order(folded(a.last()), folded(b.last()));
        }
    } else if a.len() == 0 && b.len() == 0 {
        assert(fa =~= fb);
    } else {
        assert(fa.len() != fb.len());
    }
}

/// What is before one byte string is before those that the string is before.
pub proof fn lemma_bytes_transitive(a: Seq<u8>, b: Seq<u8>, c: Seq<u8>)
    requires
        bytes_before(a, b),
        bytes_before(b, c),
    ensures
        bytes_before(a, c),
    decreases a.len(),
{
    if a.len() > 0 && a[0] == b[0] && b[0] == c[0] {
        lemma_bytes_transitive(a.skip(1), b.skip(1), c.skip(1));
    }
}

/// Names that are the same have the same place in the canonical order.
pub proof fn lemma_same_place(a: NameV, b: NameV, c: NameV)
    requires
        is_same(a, b),
    ensures
        is_before(a, c) == is_before(b, c),
        is_before(c, a) == is_before(c, b),
    decreases a.len(),
{
    let fa = folded_name(a);
    let fb = folded_name(b);
    assert(fa.len() == a.len() && fb.len() == b.len());
    if a.len() > 0 {
        assert(fa.last() == folded(a.last()) && fb.last() == folded(b.last()));
        assert(folded_name(a.drop_last()) =~= fa.drop_last());
        assert(folded_name(b.drop_last()) =~= fb.drop_last());
        if c.len() > 0 {
            lemma_same_place(a.drop_last(), b.drop_last(), c.drop_last());
        }
    }
}

/// What is before one name in the canonical order is before those that the name is before.
pub proof fn lemma_name_transitive(a: NameV, b: NameV, c: NameV)
    requires
        is_before(a, b),
        is_before(b, c),
    ensures
        is_before(a, c),
    decreases a.len(),
{
    if a.len() > 0 {
        let (x, y, z) = (folded(a.last()), folded(b.last()), folded(c.last()));
        if x == y && y == z {
            lemma_name_transitive(a.drop_last(), b.drop_last(), c.drop_last());
        } else if x != y && y != z {
            lemma_bytes_transitive(x, y, z);
            lemma_bytes_order(x, z);
        }
    }
}

/// Makes a copy of a byte string.
pub fn copy_bytes(b: &Vec<u8>) -> (r: Vec<u8>)
    ensures
        r@ == b@,
{
    let mut out: Vec<u8> = Vec::new();
    let mut i: usize = 0;
    while i < b.len()
        invariant
            i <= b@.len(),
            out@ == b@.take(i as int),
        decreases b@.len() - i,
    {
        out.push(b[i]);
        assert(out@ =~= b@.take(i + 1));
        i = i + 1;
    }
    assert(b@.take(i as int) =~= b@);
    out
}

/// The labels of a name from a place on.
fn labels_from(n: &DnsName, start: usize) -> (r: DnsName)
    requires
        start <= n@.len(),
    ensures
        r@ == n@.skip(start as int),
{
    let mut labels: Vec<Vec<u8>> = Vec::new();
    let mut i: usize = start;
    assert(byte_views(labels@) =~= n@.subrange(start as int, start as int));
    while i < n.labels.len()
        invariant
            start <= i <= n.labels@.len(),
            byte_views(labels@) == n@.subrange(start as int, i as int),
        decreases n.labels@.len() - i,
    {
        let ghost before = byte_views(labels@);
        let label = copy_bytes(&n.labels[i]);
        labels.push(label);
        assert(byte_views(labels@) =~= before.push(label@));
        assert(n@[i as int] == n.labels@[i as int]@);
        assert(before.push(n@[i as int]) =~= n@.subrange(start as int, i + 1));
        i = i + 1;
    }
    assert(n@.subrange(start as int, i as int) =~= n@.skip(start as int));
    DnsName { labels }
}

/// Makes a copy of a name.
pub fn copy_name(n: &DnsName) -> (r: DnsName)
    ensures
        r@ == n@,
{
    assert(n@.skip(0) =~= n@);
    labels_from(n, 0)
}

fn lower_of(b: u8) -> (r: u8)
    ensures
        r == lower_byte(b),
{
    if 65 <= b && b <= 90 {
        b + 32
    } else {
        b
    }
}

fn fold(label: &Vec<u8>) -> (r: Vec<u8>)
    ensures
        r@ == folded(label@),
{
    let mut out: Vec<u8> = Vec::new();
    let mut i: usize = 0;
    while i < label.len()
        invariant
            i <= label@.len(),
            out@ == folded(label@).take(i as int),
        decreases label@.len() - i,
    {
        out.push(lower_of(label[i]));
        assert(out@ =~= folded(label@).take(i + 1));
        i = i + 1;
    }
    assert(folded(label@).take(i as int) =~= folded(label@));
    out
}

/// Whether two byte strings are equal.
pub fn same_bytes(a: &Vec<u8>, b: &Vec<u8>) -> (r: bool)
    ensures
        r == (a@ == b@),
{
    if a.len() != b.len() {
        return false;
    }
    let mut i: usize = 0;
    while i < a.len()
        invariant
            i <= a@.len(),
            a@.len() == b@.len(),
            forall|k: int| 0 <= k < i ==> a@[k] == b@[k],
        decreases a@.len() - i,
    {
        if a[i] != b[i] {
            return false;
        }
        i = i + 1;
    }
    assert(a@ =~= b@);
    true
}

/// Whether one byte string is before another.
pub fn bytes_precede(a: &Vec<u8>, b: &Vec<u8>) -> (r: bool)
    ensures
        r == bytes_before(a@, b@),
{
    let mut i: usize = 0;
    assert(a@.skip(0) =~= a@ && b@.skip(0) =~= b@);
    while i < a.len() && i < b.len()
        invariant
            i <= a@.len(),
            i <= b@.len(),
            bytes_before(a@, b@) == bytes_before(a@.skip(i as int), b@.skip(i as int)),
        decreases a@.len() - i,
    {
        if a[i] != b[i] {
            return a[i] < b[i];
        }
        assert(a@.skip(i as int).skip(1) =~= a@.skip(i + 1));
        assert(b@.skip(i as int).skip(1) =~= b@.skip(i + 1));
        i = i + 1;
    }
    i < b.len()
}

/// Whether two names are the same.
pub fn same_name(a: &DnsName, b: &DnsName) -> (r: bool)
    ensures
        r == is_same(a@, b@),
{
    if a.labels.len() != b.labels.len() {
        assert(folded_name(a@).len() != folded_name(b@).len());
        return false;
    }
    let mut i: usize = 0;
    while i < a.labels.len()
        invariant
            i <= a.labels@.len(),
            a.labels@.len() == b.labels@.len(),
            forall|k: int|
                0 <= k < i ==> (#[trigger] folded_name(a@)[k]) == folded_name(b@)[k],
        decreases a.labels@.len() - i,
    {
        assert(folded_name(a@)[i as int] == folded(a.labels@[i as int]@));
        assert(folded_name(b@)[i as int] == folded(b.labels@[i as int]@));
        if !same_bytes(&fold(&a.labels[i]), &fold(&b.labels[i])) {
            return false;
        }
        i = i + 1;
    }
    assert(folded_name(a@) =~= folded_name(b@));
    true
}

/// Whether one name is before another in the canonical order.
pub fn precedes(a: &DnsName, b: &DnsName) -> (r: bool)
    ensures
        r == is_before(a@, b@),
{
    let mut i: usize = a.labels.len();
    let mut j: usize = b.labels.len();
    assert(a@.take(i as int) =~= a@ && b@.take(j as int) =~= b@);
    while i > 0 && j > 0
        invariant
            i <= a.labels@.len(),
            j <= b.labels@.len(),
            is_before(a@, b@) == is_before(a@.take(i as int), b@.take(j as int)),
        decreases i,
    {
        let ghost pa = a@.take(i as int);
        let ghost pb = b@.take(j as int);
        assert(pa.last() == a.labels@[i - 1]@ && pb.last() == b.labels@[j - 1]@);
        let la = fold(&a.labels[i - 1]);
        let lb = fold(&b.labels[j - 1]);
        if !same_bytes(&la, &lb) {
            return bytes_precede(&la, &lb);
        }
        assert(pa.drop_last() =~= a@.take(i - 1));
        assert(pb.drop_last() =~= b@.take(j - 1));
        i = i - 1;
        j = j - 1;
    }
    j > 0
}

fn is_asterisk(label: &Vec<u8>) -> (r: bool)
    ensures
        r == (label@ == asterisk()),
{
    if label.len() == 1 && label[0] == 42 {
        assert(label@ =~= asterisk());
        true
    } else {
        proof {
            if label@ == asterisk() {
                assert(label@.len() == 1 && label@[0] == 42);
            }
        }
        false
    }
}

/// Counts the labels of a name, an asterisk at the front not counted.
pub fn num_labels(n: &DnsName) -> (r: usize)
    ensures
        r == label_count(n@),
        r <= n@.len(),
{
    if n.labels.len() > 0 {
        assert(n@[0] == n.labels@[0]@);
        if is_asterisk(&n.labels[0]) {
            return n.labels.len() - 1;
        }
    }
    n.labels.len()
}

/// Cuts a name down to its last labels.
pub fn trim_to(n: &DnsName, count: usize) -> (r: DnsName)
    ensures
        r@ == trimmed(n@, count as nat),
{
    if count > n.labels.len() {
        copy_name(n)
    } else {
        labels_from(n, n.labels.len() - count)
    }
}

/// The ancestor of `qname`, or `qname` itself, that is one label longer than the closest encloser.
pub fn next_closer_name(qname: &DnsName, closest_encloser: &DnsName) -> (r: DnsName)
    ensures
        r@ == next_closer(qname@, closest_encloser@),
{
    let q = num_labels(qname);
    let c = num_labels(closest_encloser);
    if q > c {
        trim_to(qname, c + 1)
    } else {
        trim_to(qname, c)
    }
}

proof fn lemma_wire_length(n: NameV, i: int)
    requires
        0 <= i <= n.len(),
    ensures
        wire_length(n.take(i)) <= wire_length(n),
    decreases n.len() - i,
{
    if i < n.len() {
        assert(n.take(i + 1).drop_last() =~= n.take(i));
        lemma_wire_length(n, i + 1);
    } else {
        assert(n.take(i) =~= n);
    }
}

/// The name with an asterisk in front of it.
pub fn wildcard_name(n: &DnsName) -> (r: Option<DnsName>)
    ensures
        optional_name(r) == wildcard(n@),
{
    let mut total: usize = 1;
    let mut i: usize = 0;
    assert(n@.take(0).len() == 0);
    while i < n.labels.len()
        invariant
            i <= n.labels@.len(),
            total == wire_length(n@.take(i as int)),
            total <= 253,
        decreases n.labels@.len() - i,
    {
        let ghost next = n@.take(i + 1);
        assert(next.drop_last() =~= n@.take(i as int));
        assert(next.last() == n.labels@[i as int]@);
        proof {
            lemma_wire_length(n@, i + 1);
        }
        if total >= 253 || n.labels[i].len() > 252 - total {
            return None;
        }
        total = total + n.labels[i].len() + 1;
        i = i + 1;
    }
    assert(n@.take(i as int) =~= n@);
    let mut labels: Vec<Vec<u8>> = Vec::new();
    let mut star: Vec<u8> = Vec::new();
    star.push(42);
    assert(star@ =~= asterisk());
    labels.push(star);
    let mut k: usize = 0;
    assert(byte_views(labels@) =~= seq![asterisk()] + n@.take(0));
    while k < n.labels.len()
        invariant
            k <= n.labels@.len(),
            byte_views(labels@) == seq![asterisk()] + n@.take(k as int),
        decreases n.labels@.len() - k,
    {
        let ghost before = byte_views(labels@);
        let label = copy_bytes(&n.labels[k]);
        labels.push(label);
        assert(byte_views(labels@) =~= before.push(label@));
        assert(n@[k as int] == n.labels@[k as int]@);
        assert(before.push(n@[k as int]) =~= seq![asterisk()] + n@.take(k + 1));
        k = k + 1;
    }
    assert(n@.take(k as int) =~= n@);
    Some(DnsName { labels })
}

/// The name that stands behind an asterisk.
pub fn wildcard_closest_encloser(n: &DnsName) -> (r: Option<DnsName>)
    ensures
        optional_name(r) == behind_asterisk(n@),
{
    if n.labels.len() == 0 {
        return None;
    }
    assert(n@[0] == n.labels@[0]@);
    if is_asterisk(&n.labels[0]) {
        Some(labels_from(n, 1))
    } else {
        None
    }
}

/// The zone above a name.
pub fn parent_zone(n: &DnsName) -> (r: Option<DnsName>)
    ensures
        optional_name(r) == parent(n@),
{
    if n.labels.len() == 0 {
        None
    } else {
        Some(labels_from(n, 1))
    }
}

} // verus!
