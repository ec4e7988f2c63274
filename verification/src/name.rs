use vstd::prelude::*;
use vstd::string::StrSliceExecFns;
use vstd::string::StringSliceAdditionalSpecFns;

use crate::error::DnsError;

verus! {

// ---------------------------------------------------------------------------
// Label and name grammar
// ---------------------------------------------------------------------------

/// The dot that separates labels in the textual form of a name.
pub const DOT: u8 = 46;

/// The wildcard byte `*`.
pub const STAR: u8 = 42;

pub open spec fn is_alpha(b: u8) -> bool {
    (65 <= b && b <= 90) || (97 <= b && b <= 122)
}

pub open spec fn is_digit(b: u8) -> bool {
    48 <= b && b <= 57
}

pub open spec fn is_alnum(b: u8) -> bool {
    is_alpha(b) || is_digit(b)
}

/// Bytes allowed in the interior of a label: letters, digits and `-`.
pub open spec fn is_ldh_byte(b: u8) -> bool {
    is_alnum(b) || b == 45
}

/// The LDH grammar for a non-empty label:
/// `letter (letter|digit|'-')* (letter|digit)`.
pub open spec fn is_ldh(s: Seq<u8>) -> bool {
    &&& s.len() >= 1
    &&& is_alpha(s[0])
    &&& forall|i: int| 1 <= i < s.len() ==> is_ldh_byte(#[trigger] s[i])
    &&& s.len() >= 2 ==> is_alnum(s[s.len() - 1])
}

/// The wildcard label `*`.
pub open spec fn is_star(s: Seq<u8>) -> bool {
    s.len() == 1 && s[0] == STAR
}

/// A well-formed label: shorter than 63 bytes, and either empty (the root
/// label), the wildcard `*`, or an LDH string.
pub open spec fn wf_label(s: Seq<u8>) -> bool {
    &&& s.len() < 63
    &&& s.len() == 0 || is_star(s) || is_ldh(s)
}

/// A DNS label.
///
/// A label must be shorter than 63 bytes and match the label grammar:
/// empty (the root label), the wildcard `*`, or an LDH string.
#[derive(Debug)]
pub struct Label {
    pub bytes: Vec<u8>,
}

impl View for Label {
    type V = Seq<u8>;

    open spec fn view(&self) -> Seq<u8> {
        self.bytes@
    }
}

impl Label {
    pub open spec fn wf(&self) -> bool {
        wf_label(self@)
    }

    /// Creates a label from raw bytes, rejecting any byte string outside
    /// the label grammar.
    pub fn from_bytes_vec(bytes: Vec<u8>) -> (r: Result<Label, DnsError>)
        ensures
            match r {
                Ok(l) => l@ == bytes@ && wf_label(bytes@),
                Err(_) => !wf_label(bytes@),
            },
    {
        if check_label_bytes(&bytes) {
            Ok(Label { bytes })
        } else {
            Err(DnsError::InvalidName)
        }
    }

    /// Creates a label from a string.
    pub fn from_str(text: &str) -> (r: Result<Label, DnsError>)
        ensures
            match r {
                Ok(l) => l@ == text.spec_bytes() && wf_label(text.spec_bytes()),
                Err(_) => !wf_label(text.spec_bytes()),
            },
    {
        Label::from_bytes_vec(text.as_bytes_vec())
    }

    /// Returns the length of the label.
    pub fn len(&self) -> (r: u8)
        requires
            self.wf(),
        ensures
            r == self@.len(),
    {
        self.bytes.len() as u8
    }
}

impl Clone for Label {
    fn clone(&self) -> (r: Self)
        ensures
            r@ == self@,
    {
        let bytes = self.bytes.clone();
        assert(bytes@ =~= self.bytes@);
        Label { bytes }
    }
}

impl PartialEq for Label {
    fn eq(&self, other: &Label) -> (r: bool) {
        let r = self.bytes == other.bytes;
        proof {
            if r {
                assert(self.bytes@ =~= other.bytes@);
            } else {
                if self@ == other@ {
                    assert(forall|i: int|
                        0 <= i < self.bytes@.len() ==> self.bytes@[i] == other.bytes@[i]);
                    assert(false);
                }
            }
        }
        r
    }
}

impl Eq for Label {
}

impl vstd::std_specs::cmp::PartialEqSpecImpl for Label {
    open spec fn obeys_eq_spec() -> bool {
        true
    }

    open spec fn eq_spec(&self, other: &Label) -> bool {
        self@ == other@
    }
}

/// Checks a byte string against the label grammar.
fn check_label_bytes(bytes: &Vec<u8>) -> (r: bool)
    ensures
        r == wf_label(bytes@),
{
    let n = bytes.len();
    if n >= 63 {
        return false;
    }
    if n == 0 {
        return true;
    }
    if n == 1 && bytes[0] == STAR {
        return true;
    }
    // LDH: first byte a letter ...
    let b0 = bytes[0];
    if !((65 <= b0 && b0 <= 90) || (97 <= b0 && b0 <= 122)) {
        return false;
    }
    // ... interior bytes letters, digits or dashes ...
    for i in 1..n
        invariant
            n == bytes@.len() < 63,
            forall|j: int| 1 <= j < i ==> is_ldh_byte(#[trigger] bytes@[j]),
    {
        let b = bytes[i];
        if !((65 <= b && b <= 90) || (97 <= b && b <= 122) || (48 <= b && b <= 57) || b == 45) {
            return false;
        }
    }
    // ... and the last byte a letter or digit.
    if n >= 2 {
        let bl = bytes[n - 1];
        if !((65 <= bl && bl <= 90) || (97 <= bl && bl <= 122) || (48 <= bl && bl <= 57)) {
            return false;
        }
    }
    true
}

// ---------------------------------------------------------------------------
// Names
// ---------------------------------------------------------------------------

/// The view of a sequence of labels: each label as its byte sequence.
pub open spec fn labels_view(ls: Seq<Label>) -> Seq<Seq<u8>> {
    Seq::new(ls.len(), |i: int| ls[i]@)
}

/// The length a name occupies on the wire when written without
/// compression: one length byte plus the content bytes for each label.
pub open spec fn wire_len(ls: Seq<Seq<u8>>) -> int
    decreases ls.len(),
{
    if ls.len() == 0 {
        0
    } else {
        wire_len(ls.drop_last()) + ls.last().len() + 1
    }
}

/// A well-formed name: a non-empty label sequence whose last label is the
/// root label, whose other labels are non-empty, whose wildcard label (if
/// any) is leftmost, and whose wire length is below 255.
pub open spec fn wf_name(ls: Seq<Seq<u8>>) -> bool {
    &&& ls.len() >= 1
    &&& forall|i: int| 0 <= i < ls.len() ==> wf_label(#[trigger] ls[i])
    &&& ls.last().len() == 0
    &&& forall|i: int| 0 <= i < ls.len() - 1 ==> (#[trigger] ls[i]).len() > 0
    &&& forall|i: int| 1 <= i < ls.len() ==> !is_star(#[trigger] ls[i])
    &&& wire_len(ls) < 255
}

/// A fully qualified DNS domain name.
///
/// A name must be shorter than 255 bytes on the wire. The last label in a
/// name must be the root label (the empty label) and all other labels must
/// be non-empty.
#[derive(Debug)]
pub struct Name {
    pub labels: Vec<Label>,
}

impl View for Name {
    type V = Seq<Seq<u8>>;

    open spec fn view(&self) -> Seq<Seq<u8>> {
        labels_view(self.labels@)
    }
}

/// Partial wire lengths only grow as labels are appended.
proof fn lemma_wire_len_grows(ls: Seq<Seq<u8>>, i: int, j: int)
    requires
        0 <= i <= j <= ls.len(),
    ensures
        wire_len(ls.take(i)) <= wire_len(ls.take(j)),
    decreases j - i,
{
    if i < j {
        lemma_wire_len_grows(ls, i, j - 1);
        assert(ls.take(j).drop_last() =~= ls.take(j - 1));
        assert(wire_len(ls.take(j)) == wire_len(ls.take(j - 1)) + ls[j - 1].len() + 1);
    }
}

impl Name {
    pub open spec fn wf(&self) -> bool {
        wf_name(self@)
    }

    /// Creates a name from labels, rejecting the sequence if it is empty,
    /// if any label other than the terminal one is empty, if any label
    /// other than the leftmost is the wildcard, or if the total wire
    /// length reaches 255.
    pub fn from_labels(labels: Vec<Label>) -> (r: Result<Name, DnsError>)
        ensures
            match r {
                Ok(n) => n@ == labels_view(labels@) && wf_name(labels_view(labels@)),
                Err(_) => !wf_name(labels_view(labels@)),
            },
    {
        if check_name_labels(&labels) {
            Ok(Name { labels })
        } else {
            Err(DnsError::InvalidName)
        }
    }

    /// Returns true if this name satisfies the name grammar.
    pub fn is_wf(&self) -> (r: bool)
        ensures
            r == wf_name(self@),
    {
        check_name_labels(&self.labels)
    }
}

/// Checks a label sequence against the name grammar.
fn check_name_labels(labels: &Vec<Label>) -> (r: bool)
    ensures
        r == wf_name(labels_view(labels@)),
{
    let ghost lv = labels_view(labels@);
        let n = labels.len();
        if n == 0 {
            return false;
        }
        let mut acc: usize = 0;
        for i in 0..n
            invariant
                n == labels@.len() >= 1,
                lv == labels_view(labels@),
                acc == wire_len(lv.take(i as int)),
                acc < 255,
                forall|j: int| 0 <= j < i ==> wf_label(#[trigger] lv[j]),
                forall|j: int| 0 <= j < i && j < n - 1 ==> (#[trigger] lv[j]).len() > 0,
                forall|j: int| 1 <= j < i ==> !is_star(#[trigger] lv[j]),
        {
            let l = &labels[i];
            proof {
                assert(lv[i as int] == labels@[i as int]@);
            }
            if !check_label_bytes(&l.bytes) {
                proof {
                    assert(!wf_label(lv[i as int]));
                }
                return false;
            }
            if l.bytes.len() == 0 && i != n - 1 {
                proof {
                    assert(lv[i as int].len() == 0);
                }
                return false;
            }
            if i >= 1 && l.bytes.len() == 1 && l.bytes[0] == STAR {
                assert(is_star(lv[i as int]));
                return false;
            }
            acc = acc + 1 + l.bytes.len();
            proof {
                assert(lv.take(i + 1).drop_last() =~= lv.take(i as int));
                assert(wire_len(lv.take(i + 1)) == wire_len(lv.take(i as int)) + lv[i as int].len()
                    + 1);
            }
            if acc >= 255 {
                proof {
                    lemma_wire_len_grows(lv, i + 1, lv.len() as int);
                    assert(lv.take(lv.len() as int) =~= lv);
                }
                return false;
            }
        }
        if labels[n - 1].bytes.len() != 0 {
            return false;
        }
        proof {
            assert(lv.take(lv.len() as int) =~= lv);
        }
        true
}

impl Name {
    /// Returns true if this name is the root name.
    pub fn is_root(&self) -> (r: bool)
        ensures
            r == (self@.len() == 1),
    {
        self.labels.len() == 1
    }

    /// Creates a name from its textual form.
    ///
    /// A relative name is first made fully qualified by appending a
    /// trailing dot; `.` (and the empty string) parse to the root name.
    pub fn from_str(s: &str) -> (r: Result<Name, DnsError>)
        ensures
            match r {
                Ok(n) => spec_parse_name(s.spec_bytes()) == Some(n@) && n.wf(),
                Err(_) => spec_parse_name(s.spec_bytes()) is None,
            },
    {
        let mut bytes = s.as_bytes_vec();
        if bytes.len() == 0 || bytes[bytes.len() - 1] != DOT {
            bytes.push(DOT);
        }
        let ghost t = bytes@;
        if bytes.len() == 1 {
            let mut labels: Vec<Label> = Vec::new();
            labels.push(Label { bytes: Vec::new() });
            let root = Name { labels };
            proof {
                assert(root@ =~= seq![Seq::<u8>::empty()]);
                assert(wire_len(root@) == wire_len(root@.drop_last()) + 1);
                assert(root@.drop_last() =~= Seq::<Seq<u8>>::empty());
                assert(wf_name(root@));
            }
            return Ok(root);
        }
        let mut labels: Vec<Label> = Vec::new();
        let mut cur: Vec<u8> = Vec::new();
        let n = bytes.len();
        for i in 0..n
            invariant
                n == bytes@.len(),
                t == bytes@,
                split_from(t, 0, Seq::<u8>::empty()) == labels_view(labels@) + split_from(
                    t,
                    i as int,
                    cur@,
                ),
        {
            let b = bytes[i];
            if b == DOT {
                proof {
                    assert(split_from(t, i as int, cur@) == seq![cur@] + split_from(
                        t,
                        i + 1,
                        Seq::<u8>::empty(),
                    ));
                }
                let done = Label { bytes: cur };
                labels.push(done);
                cur = Vec::new();
                proof {
                    assert(labels_view(labels@.drop_last()) + (seq![labels@.last()@] + split_from(
                        t,
                        i + 1,
                        cur@,
                    )) =~= labels_view(labels@) + split_from(t, i + 1, cur@));
                    assert(labels_view(labels@.drop_last()) =~= labels_view(labels@).drop_last());
                }
            } else {
                proof {
                    assert(split_from(t, i as int, cur@) == split_from(t, i + 1, cur@.push(b)));
                }
                cur.push(b);
            }
        }
        proof {
            assert(split_from(t, n as int, cur@) == seq![cur@]);
        }
        labels.push(Label { bytes: cur });
        proof {
            assert(labels_view(labels@) =~= labels_view(labels@.drop_last()) + seq![
                labels@.last()@,
            ]);
            assert(labels_view(labels@) == split_from(t, 0, Seq::<u8>::empty()));
        }
        Name::from_labels(labels)
    }

    /// Returns the textual form of this name: each non-root label
    /// followed by a dot. The root name prints as the empty string.
    pub fn to_text(&self) -> (r: String)
        requires
            self.wf(),
        ensures
            r@ == chars_of(name_text_bytes(self@)),
    {
        let mut out: Vec<u8> = Vec::new();
        let n = self.labels.len();
        proof {
            assert(self@.skip(0) =~= self@);
        }
        for i in 0..n
            invariant
                n == self.labels@.len(),
                self.wf(),
                name_text_bytes(self@) == out@ + name_text_bytes(self@.skip(i as int)),
                forall|j: int| 0 <= j < out@.len() ==> #[trigger] out@[j] < 128,
        {
            let ghost rest = self@.skip(i as int);
            proof {
                assert(rest.len() == n - i);
                assert(rest[0] == self@[i as int]);
                assert(rest.skip(1) =~= self@.skip(i + 1));
                assert(name_text_bytes(rest) == rest[0] + (if rest[0].len() > 0 {
                    seq![DOT]
                } else {
                    Seq::<u8>::empty()
                }) + name_text_bytes(rest.skip(1)));
                assert(wf_label(self@[i as int]));
                lemma_wf_label_ascii(self@[i as int]);
            }
            let l = &self.labels[i];
            let m = l.bytes.len();
            let ghost old_out = out@;
            for k in 0..m
                invariant
                    m == l.bytes@.len(),
                    out@ == old_out + l.bytes@.take(k as int),
                    forall|j: int| 0 <= j < l.bytes@.len() ==> #[trigger] l.bytes@[j] < 128,
                    forall|j: int| 0 <= j < old_out.len() ==> #[trigger] old_out[j] < 128,
            {
                proof {
                    assert(l.bytes@.take(k + 1) =~= l.bytes@.take(k as int).push(l.bytes@[k as int]));
                }
                out.push(l.bytes[k]);
            }
            proof {
                assert(l.bytes@.take(m as int) =~= l.bytes@);
            }
            if m > 0 {
                out.push(DOT);
            }
            proof {
                assert(name_text_bytes(self@) == out@ + name_text_bytes(self@.skip(i + 1)));
            }
        }
        proof {
            assert(self@.skip(n as int) =~= Seq::<Seq<u8>>::empty());
            assert(name_text_bytes(self@) =~= out@);
        }
        string_from_ascii(out)
    }

    /// Returns true if the other name is a subdomain of this name or
    /// equal to it: this name's labels are a suffix of the other's.
    pub fn contains(&self, other: &Name) -> (r: bool)
        ensures
            r == spec_contains(self@, other@),
    {
        let n = self.labels.len();
        let m = other.labels.len();
        if n > m {
            return false;
        }
        for i in 0..n
            invariant
                n == self.labels@.len(),
                m == other.labels@.len(),
                n <= m,
                forall|j: int|
                    0 <= j < i ==> #[trigger] self@[n - 1 - j] == other@[m - 1 - j],
        {
            let a = &self.labels[n - 1 - i];
            let b = &other.labels[m - 1 - i];
            if !(a == b) {
                proof {
                    assert(self@[n - 1 - i] != other@[m - 1 - i]);
                    if spec_contains(self@, other@) {
                        assert(other@.skip(m - n)[n - 1 - i] == self@[n - 1 - i]);
                        assert(false);
                    }
                }
                return false;
            }
        }
        proof {
            assert forall|j: int| 0 <= j < n implies other@.skip(m - n)[j] == self@[j] by {
                assert(self@[n - 1 - (n - 1 - j)] == other@[m - 1 - (n - 1 - j)]);
            }
            assert(other@.skip(m - n) =~= self@);
        }
        true
    }

    /// Returns a copy of the name with the leftmost label replaced by the
    /// wildcard label. Applied to the root name it yields `*.`.
    pub fn to_wildcard(&self) -> (r: Name)
        requires
            self.wf(),
        ensures
            r@ == spec_wildcard_of(self@),
            wf_name(r@),
    {
        let mut labels: Vec<Label> = Vec::new();
        let mut star_bytes: Vec<u8> = Vec::new();
        star_bytes.push(STAR);
        labels.push(Label { bytes: star_bytes });
        let n = self.labels.len();
        if n == 1 {
            labels.push(Label { bytes: Vec::new() });
            let r = Name { labels };
            proof {
                assert(r@ =~= seq![seq![STAR], Seq::<u8>::empty()]);
                assert(r@.drop_last() =~= seq![seq![STAR]]);
                assert(r@.drop_last().drop_last() =~= Seq::<Seq<u8>>::empty());
                assert(wire_len(Seq::<Seq<u8>>::empty()) == 0);
                assert(wire_len(r@.drop_last()) == 2);
                assert(wire_len(r@) == 3);
                assert(wf_name(r@));
            }
            return r;
        }
        for i in 1..n
            invariant
                n == self.labels@.len(),
                self.wf(),
                labels@.len() == i,
                labels@[0]@ =~= seq![STAR],
                forall|j: int| 1 <= j < i ==> #[trigger] labels@[j]@ == self@[j],
        {
            labels.push(self.labels[i].clone());
        }
        let r = Name { labels };
        proof {
            assert(r@ =~= self@.update(0, seq![STAR]));
            lemma_wire_len_update0(self@, seq![STAR]);
            assert(self@[0].len() >= 1);
            assert(wf_name(r@));
        }
        r
    }

    /// Returns an iterator over the suffixes of this name.
    ///
    /// Suffixes are returned in descending order based on length: the
    /// full name first, the root name last.
    pub fn suffixes(&self) -> (r: Suffixes)
        requires
            self.wf(),
        ensures
            r.name@ == self@,
            r.name.wf(),
            r.pos == 0,
    {
        Suffixes { name: self.clone(), pos: 0 }
    }

    /// Returns an iterator over the ancestors of this name.
    ///
    /// Ancestors are returned in ascending order based on length: the
    /// root name first, the full name last.
    pub fn ancestors(&self) -> (r: Ancestors)
        requires
            self.wf(),
        ensures
            r.name@ == self@,
            r.name.wf(),
            r.pos == 1,
    {
        Ancestors { name: self.clone(), pos: 1 }
    }

    /// Clones the suffix of this name that starts at label `from`.
    pub(crate) fn suffix_name(&self, from: usize) -> (r: Name)
        requires
            self.wf(),
            from < self@.len(),
        ensures
            r@ == self@.skip(from as int),
            r.wf(),
    {
        let n = self.labels.len();
        let mut labels: Vec<Label> = Vec::new();
        for i in from..n
            invariant
                n == self.labels@.len(),
                from <= i <= n,
                self.wf(),
                labels@.len() == i - from,
                forall|j: int| 0 <= j < i - from ==> #[trigger] labels@[j]@ == self@[from + j],
        {
            labels.push(self.labels[i].clone());
        }
        let r = Name { labels };
        proof {
            assert(r@ =~= self@.skip(from as int));
            lemma_wf_name_skip(self@, from as int);
        }
        r
    }
}

impl Clone for Name {
    fn clone(&self) -> (r: Self)
        ensures
            r@ == self@,
    {
        let labels = self.labels.clone();
        proof {
            assert forall|i: int| 0 <= i < labels@.len() implies #[trigger] labels@[i]@
                == self.labels@[i]@ by {
                assert(cloned::<Label>(self.labels@[i], labels@[i]));
            }
            assert(labels_view(labels@) =~= labels_view(self.labels@));
        }
        Name { labels }
    }
}

impl PartialEq for Name {
    fn eq(&self, other: &Name) -> (r: bool) {
        let n = self.labels.len();
        if n != other.labels.len() {
            proof {
                assert(self@.len() != other@.len());
            }
            return false;
        }
        for i in 0..n
            invariant
                n == self.labels@.len() == other.labels@.len(),
                forall|j: int| 0 <= j < i ==> #[trigger] self@[j] == other@[j],
        {
            if !(&self.labels[i] == &other.labels[i]) {
                proof {
                    assert(self@[i as int] == self.labels@[i as int]@);
                    assert(other@[i as int] == other.labels@[i as int]@);
                    assert(self@[i as int] != other@[i as int]);
                }
                return false;
            }
        }
        proof {
            assert(self@ =~= other@);
        }
        true
    }
}

impl Eq for Name {
}

impl vstd::std_specs::cmp::PartialEqSpecImpl for Name {
    open spec fn obeys_eq_spec() -> bool {
        true
    }

    open spec fn eq_spec(&self, other: &Name) -> bool {
        self@ == other@
    }
}

/// The labels of a wildcard lookup name: the leftmost label replaced by
/// `*`. Applied to the root name it yields the two labels of `*.`.
pub open spec fn spec_wildcard_of(ls: Seq<Seq<u8>>) -> Seq<Seq<u8>> {
    if ls.len() == 1 {
        seq![seq![STAR], Seq::<u8>::empty()]
    } else {
        ls.update(0, seq![STAR])
    }
}

/// Whether `a` is a suffix of `b`: `a` names a zone that contains `b`.
pub open spec fn spec_contains(a: Seq<Seq<u8>>, b: Seq<Seq<u8>>) -> bool {
    b.len() >= a.len() && b.skip(b.len() - a.len()) == a
}

/// Splits a byte string at dots, accumulating the current segment.
pub open spec fn split_from(s: Seq<u8>, i: int, cur: Seq<u8>) -> Seq<Seq<u8>>
    decreases s.len() - i,
{
    if i < 0 || i >= s.len() {
        seq![cur]
    } else if s[i] == DOT {
        seq![cur] + split_from(s, i + 1, Seq::<u8>::empty())
    } else {
        split_from(s, i + 1, cur.push(s[i]))
    }
}

/// The labels a textual name parses to: the text is made fully qualified
/// by appending a dot if it has none, `.` becomes the root name, and any
/// other text is split at dots (the trailing empty segment being the root
/// label). The result is `Some` exactly when those labels form a
/// well-formed name.
pub open spec fn spec_parse_name(s: Seq<u8>) -> Option<Seq<Seq<u8>>> {
    let t = if s.len() > 0 && s.last() == DOT {
        s
    } else {
        s.push(DOT)
    };
    let ls = if t.len() == 1 {
        seq![Seq::<u8>::empty()]
    } else {
        split_from(t, 0, Seq::<u8>::empty())
    };
    if wf_name(ls) {
        Some(ls)
    } else {
        None
    }
}

/// The textual form of a name as bytes: each non-root label followed by a
/// dot.
pub open spec fn name_text_bytes(ls: Seq<Seq<u8>>) -> Seq<u8>
    decreases ls.len(),
{
    if ls.len() == 0 {
        Seq::<u8>::empty()
    } else {
        ls[0] + (if ls[0].len() > 0 {
            seq![DOT]
        } else {
            Seq::<u8>::empty()
        }) + name_text_bytes(ls.skip(1))
    }
}

/// ASCII bytes read as characters.
pub open spec fn chars_of(b: Seq<u8>) -> Seq<char> {
    Seq::new(b.len(), |i: int| b[i] as char)
}

/// Relies on std's String::from_utf8: a buffer of bytes below 128 is
/// valid UTF-8 and decodes to one character per byte.
#[verifier::external_body]
pub(crate) fn string_from_ascii(bytes: Vec<u8>) -> (r: String)
    requires
        forall|i: int| 0 <= i < bytes@.len() ==> #[trigger] bytes@[i] < 128,
    ensures
        r@ == chars_of(bytes@),
{
    match String::from_utf8(bytes) {
        Ok(s) => s,
        Err(_) => String::new(),
    }
}

/// Every byte of a well-formed label is ASCII.
proof fn lemma_wf_label_ascii(s: Seq<u8>)
    requires
        wf_label(s),
    ensures
        forall|i: int| 0 <= i < s.len() ==> #[trigger] s[i] < 128,
{
}

/// Replacing the leftmost label changes the wire length by the
/// difference of the label lengths.
proof fn lemma_wire_len_update0(ls: Seq<Seq<u8>>, x: Seq<u8>)
    requires
        ls.len() >= 1,
    ensures
        wire_len(ls.update(0, x)) == wire_len(ls) - ls[0].len() + x.len(),
    decreases ls.len(),
{
    if ls.len() == 1 {
        assert(ls.update(0, x) =~= seq![x]);
        assert(seq![x].drop_last() =~= Seq::<Seq<u8>>::empty());
        assert(ls.drop_last() =~= Seq::<Seq<u8>>::empty());
    } else {
        assert(ls.update(0, x).drop_last() =~= ls.drop_last().update(0, x));
        lemma_wire_len_update0(ls.drop_last(), x);
    }
}

/// The wire length of a concatenation is the sum of the wire lengths.
pub proof fn lemma_wire_len_cat(a: Seq<Seq<u8>>, b: Seq<Seq<u8>>)
    ensures
        wire_len(a + b) == wire_len(a) + wire_len(b),
    decreases b.len(),
{
    if b.len() == 0 {
        assert(a + b =~= a);
    } else {
        assert((a + b).drop_last() =~= a + b.drop_last());
        assert((a + b).last() == b.last());
        lemma_wire_len_cat(a, b.drop_last());
    }
}

/// Wire lengths are positive for non-empty label sequences.
pub proof fn lemma_wire_len_nonneg(ls: Seq<Seq<u8>>)
    ensures
        wire_len(ls) >= 0,
    decreases ls.len(),
{
    if ls.len() > 0 {
        lemma_wire_len_nonneg(ls.drop_last());
    }
}

/// Each label contributes at least one byte to the wire length, so a
/// well-formed name has fewer than 255 labels.
pub proof fn lemma_wire_len_ge_len(ls: Seq<Seq<u8>>)
    ensures
        wire_len(ls) >= ls.len(),
    decreases ls.len(),
{
    if ls.len() > 0 {
        lemma_wire_len_ge_len(ls.drop_last());
    }
}

/// Every suffix of a well-formed name is a well-formed name.
pub proof fn lemma_wf_name_skip(ls: Seq<Seq<u8>>, k: int)
    requires
        wf_name(ls),
        0 <= k < ls.len(),
    ensures
        wf_name(ls.skip(k)),
{
    assert(ls =~= ls.take(k) + ls.skip(k));
    lemma_wire_len_cat(ls.take(k), ls.skip(k));
    lemma_wire_len_nonneg(ls.take(k));
    assert(ls.skip(k).last() == ls.last());
    assert(forall|i: int|
        0 <= i < ls.skip(k).len() ==> #[trigger] ls.skip(k)[i] == ls[k + i]);
}

/// Iterator over the suffixes of a name.
#[derive(Debug)]
pub struct Suffixes {
    pub name: Name,
    pub pos: usize,
}

impl Suffixes {
    pub fn new(name: &Name) -> (r: Suffixes)
        requires
            name.wf(),
        ensures
            r.name@ == name@,
            r.name.wf(),
            r.pos == 0,
    {
        Suffixes { name: name.clone(), pos: 0 }
    }

    /// Yields the suffix of the name that starts at the current position:
    /// the full name first, the root name last, then `None`.
    pub fn next(&mut self) -> (r: Option<Name>)
        requires
            old(self).name.wf(),
        ensures
            final(self).name@ == old(self).name@,
            final(self).name.wf(),
            if old(self).pos >= old(self).name@.len() {
                r is None && final(self).pos == old(self).pos
            } else {
                &&& r matches Some(n) && n@ == old(self).name@.skip(old(self).pos as int)
                &&& r matches Some(n) && n.wf()
                &&& final(self).pos == old(self).pos + 1
            },
    {
        if self.pos >= self.name.labels.len() {
            return None;
        }
        proof {
            lemma_wire_len_ge_len(self.name@);
        }
        let suffix = self.name.suffix_name(self.pos);
        self.pos = self.pos + 1;
        Some(suffix)
    }
}

/// Iterator over the ancestors of a name.
#[derive(Debug)]
pub struct Ancestors {
    pub name: Name,
    pub pos: usize,
}

impl Ancestors {
    pub fn new(name: &Name) -> (r: Ancestors)
        requires
            name.wf(),
        ensures
            r.name@ == name@,
            r.name.wf(),
            r.pos == 1,
    {
        Ancestors { name: name.clone(), pos: 1 }
    }

    /// Yields the ancestor made of the last `pos` labels of the name: the
    /// root name first, the full name last, then `None`.
    pub fn next(&mut self) -> (r: Option<Name>)
        requires
            old(self).name.wf(),
            old(self).pos >= 1,
        ensures
            final(self).name@ == old(self).name@,
            final(self).name.wf(),
            final(self).pos >= 1,
            if old(self).pos > old(self).name@.len() {
                r is None && final(self).pos == old(self).pos
            } else {
                &&& r matches Some(n) && n@ == old(self).name@.skip(
                    old(self).name@.len() - old(self).pos,
                )
                &&& r matches Some(n) && n.wf()
                &&& final(self).pos == old(self).pos + 1
            },
    {
        let len = self.name.labels.len();
        if self.pos > len {
            return None;
        }
        proof {
            lemma_wire_len_ge_len(self.name@);
        }
        let ancestor = self.name.suffix_name(len - self.pos);
        self.pos = self.pos + 1;
        Some(ancestor)
    }
}

} // verus!
