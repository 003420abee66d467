use vstd::prelude::*;

verus! {

/// The lowercase form of an ASCII byte; other bytes are kept.
pub open spec fn lower_spec(b: u8) -> u8 {
    if 65 <= b && b <= 90 {
        (b + 32) as u8
    } else {
        b
    }
}

/// A label with every ASCII letter folded to lowercase.
pub open spec fn lower_label(l: Seq<u8>) -> Seq<u8> {
    l.map_values(|b: u8| lower_spec(b))
}

/// A name (labels left to right, root label omitted) with every label folded.
pub open spec fn normalized(n: Seq<Seq<u8>>) -> Seq<Seq<u8>> {
    n.map_values(|l: Seq<u8>| lower_label(l))
}

/// `s` ends with `suffix`, compared label by label.
pub open spec fn ends_with(s: Seq<Seq<u8>>, suffix: Seq<Seq<u8>>) -> bool {
    suffix.len() <= s.len() && s.subrange(s.len() - suffix.len(), s.len() as int) == suffix
}

/// A domain name as its labels, left to right, without the root label.
pub struct DomainName {
    pub labels: Vec<Vec<u8>>,
}

impl View for DomainName {
    type V = Seq<Seq<u8>>;

    open spec fn view(&self) -> Seq<Seq<u8>> {
        self.labels@.map_values(|l: Vec<u8>| l@)
    }
}

pub fn lower_byte(b: u8) -> (r: u8)
    ensures
        r == lower_spec(b),
{
    if 65 <= b && b <= 90 {
        b + 32
    } else {
        b
    }
}

/// Byte-wise equality of two labels.
pub fn bytes_eq(a: &Vec<u8>, b: &Vec<u8>) -> (r: bool)
    ensures
        r == (a@ == b@),
{
    if a.len() != b.len() {
        return false;
    }
    let mut i: usize = 0;
    while i < a.len()
        invariant
            a@.len() == b@.len(),
            0 <= i <= a@.len(),
            a@.subrange(0, i as int) == b@.subrange(0, i as int),
        decreases a@.len() - i,
    {
        if a[i] != b[i] {
            assert(a@[i as int] != b@[i as int]);
            return false;
        }
        assert(a@.subrange(0, i + 1) == a@.subrange(0, i as int).push(a@[i as int]));
        assert(b@.subrange(0, i + 1) == b@.subrange(0, i as int).push(b@[i as int]));
        i = i + 1;
    }
    assert(a@ == a@.subrange(0, a@.len() as int));
    assert(b@ == b@.subrange(0, b@.len() as int));
    true
}

/// Folds one label to lowercase.
pub fn lower_label_exec(l: &Vec<u8>) -> (r: Vec<u8>)
    ensures
        r@ == lower_label(l@),
{
    let mut out: Vec<u8> = Vec::new();
    let mut i: usize = 0;
    while i < l.len()
        invariant
            0 <= i <= l@.len(),
            out@ == lower_label(l@.subrange(0, i as int)),
        decreases l@.len() - i,
    {
        out.push(lower_byte(l[i]));
        assert(l@.subrange(0, i + 1) == l@.subrange(0, i as int).push(l@[i as int]));
        i = i + 1;
    }
    assert(l@ == l@.subrange(0, l@.len() as int));
    out
}

impl DomainName {
    /// Builds a name from its labels, folding each to lowercase.
    pub fn new(labels: Vec<Vec<u8>>) -> (r: DomainName)
        ensures
            r@ == normalized(labels@.map_values(|l: Vec<u8>| l@)),
    {
        let ghost src = labels@.map_values(|l: Vec<u8>| l@);
        let mut out: Vec<Vec<u8>> = Vec::new();
        let mut i: usize = 0;
        while i < labels.len()
            invariant
                0 <= i <= labels@.len(),
                src == labels@.map_values(|l: Vec<u8>| l@),
                out@.len() == i,
                forall|k: int| 0 <= k < i ==> out@[k]@ == lower_label(src[k]),
            decreases labels@.len() - i,
        {
            out.push(lower_label_exec(&labels[i]));
            i = i + 1;
        }
        let r = DomainName { labels: out };
        assert(r@ =~= normalized(src));
        r
    }

    /// A copy of the name.
    pub fn copy(&self) -> (r: DomainName)
        ensures
            r@ == self@,
    {
        let mut labels: Vec<Vec<u8>> = Vec::new();
        let mut i: usize = 0;
        while i < self.labels.len()
            invariant
                0 <= i <= self.labels@.len(),
                labels@.len() == i,
                forall|k: int| 0 <= k < i ==> labels@[k]@ == self.labels@[k]@,
            decreases self.labels@.len() - i,
        {
            let l = &self.labels[i];
            let mut c: Vec<u8> = Vec::new();
            let mut j: usize = 0;
            while j < l.len()
                invariant
                    0 <= j <= l@.len(),
                    c@ == l@.subrange(0, j as int),
                decreases l@.len() - j,
            {
                c.push(l[j]);
                assert(l@.subrange(0, j + 1) == l@.subrange(0, j as int).push(l@[j as int]));
                j = j + 1;
            }
            assert(l@ == l@.subrange(0, l@.len() as int));
            labels.push(c);
            i = i + 1;
        }
        let r = DomainName { labels };
        assert(r@ =~= self@);
        r
    }

    /// Equality of two names, label by label.
    pub fn same_as(&self, other: &DomainName) -> (r: bool)
        ensures
            r == (self@ == other@),
    {
        if self.labels.len() != other.labels.len() {
            assert(self@.len() != other@.len());
            return false;
        }
        let mut i: usize = 0;
        while i < self.labels.len()
            invariant
                self.labels@.len() == other.labels@.len(),
                0 <= i <= self.labels@.len(),
                forall|k: int| 0 <= k < i ==> self@[k] == other@[k],
            decreases self.labels@.len() - i,
        {
            if !bytes_eq(&self.labels[i], &other.labels[i]) {
                assert(self@[i as int] != other@[i as int]);
                return false;
            }
            i = i + 1;
        }
        assert(self@ =~= other@);
        true
    }

    /// Whether the name ends with `suffix`, label by label.
    pub fn has_suffix(&self, suffix: &Vec<Vec<u8>>) -> (r: bool)
        ensures
            r == ends_with(self@, suffix@.map_values(|l: Vec<u8>| l@)),
    {
        let ghost suf = suffix@.map_values(|l: Vec<u8>| l@);
        let n = self.labels.len();
        let m = suffix.len();
        if m > n {
            return false;
        }
        let off = n - m;
        let mut i: usize = 0;
        while i < m
            invariant
                n == self@.len(),
                m == suf.len(),
                off == n - m,
                suf == suffix@.map_values(|l: Vec<u8>| l@),
                0 <= i <= m,
                forall|k: int| 0 <= k < i ==> self@[off + k] == suf[k],
            decreases m - i,
        {
            if !bytes_eq(&self.labels[off + i], &suffix[i]) {
                assert(self@.subrange(off as int, n as int)[i as int] != suf[i as int]);
                return false;
            }
            i = i + 1;
        }
        assert(self@.subrange(off as int, n as int) =~= suf);
        true
    }
}

} // verus!
