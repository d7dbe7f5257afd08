//! Fixed-capacity machine-code templates with placeholders.
use vstd::prelude::*;

verus! {

/// A hole in a template that is filled in later (for example an immediate operand).
#[derive(Debug, Clone, Copy, PartialEq, Eq, Structural)]
pub struct Placeholder {
    pub location: usize,
    pub size: usize,
}

/// Templates for representing a single "instruction" in machine code.
///
/// The instruction does not have to be strictly an eBPF instruction, these can also be pseudo
/// instructions such as CU accounting, or they can be supporting templates as well.
///
/// Each template can have a number of placeholders that may need to be filled in.
/// At most 64 bytes and 4 placeholders fit in one template.
#[derive(Debug, Clone, Copy)]
pub struct Template {
    pub bytes: [u8; 64],
    pub len: usize,
    pub placeholders: [Placeholder; 4],
    pub placeholder_count: usize,
}

/// The placeholder value that fills unused placeholder slots.
pub open spec fn unset_placeholder() -> Placeholder {
    Placeholder { location: usize::MAX, size: usize::MAX }
}

/// The unused placeholder slots of a template that has `used` placeholders.
pub open spec fn unset_slots(n: nat) -> Seq<Placeholder> {
    Seq::new(n, |i: int| unset_placeholder())
}

pub open spec fn zero_bytes(n: nat) -> Seq<u8> {
    Seq::new(n, |i: int| 0u8)
}

/// Placeholders moved `by` bytes further into the template.
pub open spec fn shifted(ps: Seq<Placeholder>, by: int) -> Seq<Placeholder> {
    ps.map_values(|p: Placeholder| Placeholder { location: (p.location + by) as usize, size: p.size })
}

/// Little-endian value of a byte sequence.
pub open spec fn le_int(s: Seq<u8>) -> nat
    decreases s.len(),
{
    if s.len() == 0 {
        0
    } else {
        s[0] as nat + 256 * le_int(s.drop_first())
    }
}

pub open spec fn pow256(k: nat) -> nat
    decreases k,
{
    if k == 0 {
        1
    } else {
        256 * pow256((k - 1) as nat)
    }
}

/// Total length of the first `n` templates.
pub open spec fn total_len(ts: Seq<Template>, n: int) -> int
    decreases n,
{
    if n <= 0 {
        0
    } else {
        total_len(ts, n - 1) + ts[n - 1].len
    }
}

/// Total placeholder count of the first `n` templates.
pub open spec fn total_count(ts: Seq<Template>, n: int) -> int
    decreases n,
{
    if n <= 0 {
        0
    } else {
        total_count(ts, n - 1) + ts[n - 1].placeholder_count
    }
}

/// Bytes of the first `n` templates, one after the other.
pub open spec fn concat_content(ts: Seq<Template>, n: int) -> Seq<u8>
    decreases n,
{
    if n <= 0 {
        Seq::empty()
    } else {
        concat_content(ts, n - 1) + ts[n - 1].content()
    }
}

/// Placeholders of the first `n` templates, each moved behind the templates before it.
pub open spec fn concat_holes(ts: Seq<Template>, n: int) -> Seq<Placeholder>
    decreases n,
{
    if n <= 0 {
        Seq::empty()
    } else {
        concat_holes(ts, n - 1) + shifted(ts[n - 1].holes(), total_len(ts, n - 1))
    }
}

/// The placeholders of every template in `ts` can be moved behind the templates before it
/// without overflowing.
pub open spec fn shifts_fit(ts: Seq<Template>) -> bool {
    forall|i: int, j: int|
        #![trigger ts[i].placeholders@[j]]
        0 <= i < ts.len() && 0 <= j < ts[i].placeholder_count ==> ts[i].placeholders@[j].location
            + total_len(ts, i) <= usize::MAX
}

proof fn lemma_totals_monotone(ts: Seq<Template>, i: int, n: int)
    requires
        0 <= i <= n <= ts.len(),
    ensures
        total_len(ts, i) <= total_len(ts, n),
        total_count(ts, i) <= total_count(ts, n),
        0 <= total_len(ts, i),
        0 <= total_count(ts, i),
        i < n ==> total_len(ts, i) + ts[i].len <= total_len(ts, n),
        i < n ==> total_count(ts, i) + ts[i].placeholder_count <= total_count(ts, n),
    decreases n,
{
    if n > 0 {
        if i < n {
            lemma_totals_monotone(ts, i, n - 1);
        }
        lemma_totals_monotone(ts, n - 1, n - 1);
    }
}

/// Moving placeholders by `x` and then by `y` moves them by `x + y`, and moving a
/// concatenation moves each part.
pub proof fn lemma_shifted_compose(h: Seq<Placeholder>, g: Seq<Placeholder>, x: int, y: int)
    requires
        0 <= x,
        0 <= y,
        forall|i: int| 0 <= i < h.len() ==> #[trigger] h[i].location + x + y <= usize::MAX,
    ensures
        shifted(shifted(h, x), y) == shifted(h, x + y),
        shifted(h + g, x) == shifted(h, x) + shifted(g, x),
        shifted(h, 0) == h,
{
    assert(shifted(shifted(h, x), y) =~= shifted(h, x + y));
    assert(shifted(h + g, x) =~= shifted(h, x) + shifted(g, x));
    assert(shifted(h, 0) =~= h);
}

/// Appending templates is associative: `(a + b) + c` and `a + (b + c)` have the same bytes and
/// the same placeholders (as stated by the `ensures` of [`Template::merge`]), whenever the
/// three fit together and no placeholder location overflows when moved.
pub proof fn law_merge_associative(a: Template, b: Template, c: Template)
    requires
        a.len + b.len + c.len <= 64,
        a.placeholder_count + b.placeholder_count + c.placeholder_count <= 4,
        forall|i: int|
            0 <= i < b.placeholder_count ==> #[trigger] b.placeholders@[i].location + a.len
                <= usize::MAX,
        forall|i: int|
            0 <= i < c.placeholder_count ==> #[trigger] c.placeholders@[i].location + a.len
                + b.len <= usize::MAX,
    ensures
        (a.content() + b.content()) + c.content() == a.content() + (b.content() + c.content()),
        (a.holes() + shifted(b.holes(), a.len as int)) + shifted(c.holes(), a.len + b.len)
            == a.holes() + shifted(b.holes() + shifted(c.holes(), b.len as int), a.len as int),
{
    assert((a.content() + b.content()) + c.content() =~= a.content() + (b.content()
        + c.content()));
    let ch = c.holes();
    assert forall|i: int| 0 <= i < ch.len() implies #[trigger] ch[i].location + b.len + a.len
        <= usize::MAX by {
        assert(ch[i] == c.placeholders@[i]);
    }
    lemma_shifted_compose(ch, Seq::empty(), b.len as int, a.len as int);
    lemma_shifted_compose(b.holes(), shifted(ch, b.len as int), a.len as int, 0);
    assert((a.holes() + shifted(b.holes(), a.len as int)) + shifted(ch, a.len + b.len)
        =~= a.holes() + (shifted(b.holes(), a.len as int) + shifted(ch, a.len + b.len)));
}

/// `t` is what appending `b` to `a` gives (the result that [`Template::merge`] states).
pub open spec fn is_merge(a: Template, b: Template, t: Template) -> bool {
    &&& t.len == a.len + b.len
    &&& t.placeholder_count == a.placeholder_count + b.placeholder_count
    &&& t.bytes@ == a.content() + b.content() + a.bytes@.skip(a.len + b.len)
    &&& t.placeholders@ == a.holes() + shifted(b.holes(), a.len as int) + a.placeholders@.skip(
        a.placeholder_count + b.placeholder_count,
    )
}

/// Merging is associative on the templates themselves: `a.merge(&b).merge(&c)` and
/// `a.merge(&b.merge(&c))` have the same length, bytes, placeholder count and placeholders.
pub proof fn law_merge_results_associative(
    a: Template,
    b: Template,
    c: Template,
    ab: Template,
    x: Template,
    bc: Template,
    y: Template,
)
    requires
        a.len + b.len + c.len <= 64,
        a.placeholder_count + b.placeholder_count + c.placeholder_count <= 4,
        forall|i: int|
            0 <= i < b.placeholder_count ==> #[trigger] b.placeholders@[i].location + a.len
                <= usize::MAX,
        forall|i: int|
            0 <= i < c.placeholder_count ==> #[trigger] c.placeholders@[i].location + a.len
                + b.len <= usize::MAX,
        is_merge(a, b, ab),
        is_merge(ab, c, x),
        is_merge(b, c, bc),
        is_merge(a, bc, y),
    ensures
        x.len == y.len,
        x.placeholder_count == y.placeholder_count,
        x.bytes@ == y.bytes@,
        x.placeholders@ == y.placeholders@,
        x.content() == y.content(),
        x.holes() == y.holes(),
{
    law_merge_associative(a, b, c);
    assert(ab.content() =~= a.content() + b.content());
    assert(bc.content() =~= b.content() + c.content());
    assert(ab.holes() =~= a.holes() + shifted(b.holes(), a.len as int));
    assert(bc.holes() =~= b.holes() + shifted(c.holes(), b.len as int));
    assert(ab.bytes@.skip(ab.len + c.len) =~= a.bytes@.skip(a.len + b.len + c.len));
    assert(ab.placeholders@.skip(ab.placeholder_count + c.placeholder_count) =~= a.placeholders@.skip(
        a.placeholder_count + b.placeholder_count + c.placeholder_count,
    ));
    assert(x.bytes@ =~= y.bytes@);
    assert(x.placeholders@ =~= y.placeholders@);
}

/// Appending the empty template on either side changes neither the bytes nor the
/// placeholders.
pub proof fn law_merge_empty_identity(a: Template, e: Template)
    requires
        a.wf(),
        e.len == 0,
        e.placeholder_count == 0,
    ensures
        a.content() + e.content() == a.content(),
        e.content() + a.content() == a.content(),
        a.holes() + shifted(e.holes(), a.len as int) == a.holes(),
        e.holes() + shifted(a.holes(), e.len as int) == a.holes(),
{
    assert(a.content() + e.content() =~= a.content());
    assert(e.content() + a.content() =~= a.content());
    assert(a.holes() + shifted(e.holes(), a.len as int) =~= a.holes());
    assert(e.holes() + shifted(a.holes(), e.len as int) =~= a.holes());
}

impl Template {
    /// The bytes of the template.
    pub open spec fn content(self) -> Seq<u8> {
        self.bytes@.take(self.len as int)
    }

    /// The template has no placeholders, is 1, 2, 4 or 8 bytes long, and its bytes read as a
    /// little-endian integer of that width equal `expected` cut to that width.
    pub open spec fn le_int_matches(self, expected: i64) -> bool {
        self.placeholder_count == 0 && match self.len {
            1 => le_int(self.content()) as i8 == expected as i8,
            2 => le_int(self.content()) as i16 == expected as i16,
            4 => le_int(self.content()) as i32 == expected as i32,
            8 => le_int(self.content()) as i64 == expected,
            _ => false,
        }
    }

    /// The placeholders in use.
    pub open spec fn holes(self) -> Seq<Placeholder> {
        self.placeholders@.take(self.placeholder_count as int)
    }

    /// Well-formedness: within capacity, and every placeholder lies within the bytes.
    pub open spec fn wf(self) -> bool {
        &&& self.len <= 64
        &&& self.placeholder_count <= 4
        &&& forall|i: int|
            0 <= i < self.placeholder_count ==> #[trigger] self.placeholders@[i].location
                + self.placeholders@[i].size <= self.len
    }

    /// The bytes past the end are zero and the unused placeholder slots are unset, as in
    /// every template built by the functions of this type.
    pub open spec fn tidy(self) -> bool {
        &&& self.len <= 64
        &&& self.placeholder_count <= 4
        &&& self.bytes@ == self.content() + zero_bytes((64 - self.len) as nat)
        &&& self.placeholders@ == self.holes() + unset_slots((4 - self.placeholder_count) as nat)
    }

    /// The template with nothing in it.
    pub fn empty() -> (t: Self)
        ensures
            t.len == 0,
            t.placeholder_count == 0,
            t.bytes@ == zero_bytes(64),
            t.placeholders@ == unset_slots(4),
            t.wf(),
            t.tidy(),
    {
        let t = Template {
            bytes: [0u8; 64],
            len: 0,
            placeholders: [Placeholder { location: usize::MAX, size: usize::MAX }; 4],
            placeholder_count: 0,
        };
        assert(t.bytes@ =~= zero_bytes(64));
        assert(t.placeholders@ =~= unset_slots(4));
        assert(t.content() =~= Seq::<u8>::empty());
        assert(t.holes() =~= Seq::<Placeholder>::empty());
        t
    }

    /// The template holding exactly the given bytes.
    pub fn bytes<const N: usize>(bytes: [u8; N]) -> (t: Self)
        requires
            N <= 64,
        ensures
            t.len == N,
            t.placeholder_count == 0,
            t.bytes@ == bytes@ + zero_bytes((64 - N) as nat),
            t.placeholders@ == unset_slots(4),
            t.content() == bytes@,
            t.wf(),
            t.tidy(),
    {
        Self::from_slice(bytes.as_slice())
    }

    /// The template holding exactly the bytes of the slice.
    pub fn from_slice(bytes: &[u8]) -> (t: Self)
        requires
            bytes@.len() <= 64,
        ensures
            t.len == bytes@.len(),
            t.placeholder_count == 0,
            t.bytes@ == bytes@ + zero_bytes((64 - bytes@.len()) as nat),
            t.placeholders@ == unset_slots(4),
            t.content() == bytes@,
            t.wf(),
            t.tidy(),
    {
        let mut new = Template::empty();
        let mut i: usize = 0;
        while i < bytes.len()
            invariant
                i <= bytes@.len() <= 64,
                new.len == 0,
                new.placeholder_count == 0,
                new.placeholders@ == unset_slots(4),
                new.bytes@.len() == 64,
                forall|k: int| 0 <= k < i ==> new.bytes@[k] == bytes@[k],
                forall|k: int| i <= k < 64 ==> new.bytes@[k] == 0,
            decreases bytes@.len() - i,
        {
            new.bytes[i] = bytes[i];
            i += 1;
        }
        new.len = bytes.len();
        assert(new.bytes@ =~= bytes@ + zero_bytes((64 - bytes@.len()) as nat));
        assert(new.content() =~= bytes@);
        assert(new.holes() =~= Seq::<Placeholder>::empty());
        assert(new.placeholders@ =~= new.holes() + unset_slots(4));
        new
    }

    /// A template of `size` bytes that is entirely one placeholder.
    pub fn placeholder(size: usize) -> (t: Self)
        ensures
            t.len == size,
            t.placeholder_count == 1,
            t.bytes@ == zero_bytes(64),
            t.placeholders@ == seq![Placeholder { location: 0, size }] + unset_slots(3),
            size <= 64 ==> t.wf(),
            size <= 64 ==> t.tidy(),
    {
        let mut new = Self::empty();
        new.placeholders[0] = Placeholder { location: 0, size };
        new.len = size;
        new.placeholder_count = 1;
        assert(new.placeholders@ =~= seq![Placeholder { location: 0, size }] + unset_slots(3));
        assert(new.holes() =~= seq![Placeholder { location: 0, size }]);
        if size <= 64usize {
            assert(new.bytes@ =~= new.content() + zero_bytes((64 - size) as nat));
        }
        new
    }

    /// Appends `other` to this template: its bytes follow these bytes, and its placeholders
    /// follow these placeholders, moved behind these bytes.
    pub fn merge(self, other: &Self) -> (t: Self)
        requires
            self.len + other.len <= 64,
            self.placeholder_count + other.placeholder_count <= 4,
            forall|i: int|
                0 <= i < other.placeholder_count ==> #[trigger] other.placeholders@[i].location
                    + self.len <= usize::MAX,
        ensures
            t.len == self.len + other.len,
            t.placeholder_count == self.placeholder_count + other.placeholder_count,
            t.bytes@ == self.content() + other.content() + self.bytes@.skip(
                self.len + other.len,
            ),
            t.placeholders@ == self.holes() + shifted(other.holes(), self.len as int)
                + self.placeholders@.skip(self.placeholder_count + other.placeholder_count),
            t.content() == self.content() + other.content(),
            t.holes() == self.holes() + shifted(other.holes(), self.len as int),
            is_merge(self, *other, t),
            self.wf() && other.wf() ==> t.wf(),
            self.tidy() ==> t.tidy(),
    {
        let mut out = self;
        let mut i: usize = 0;
        while i < other.placeholder_count
            invariant
                i <= other.placeholder_count,
                self.placeholder_count + other.placeholder_count <= 4,
                forall|k: int|
                    0 <= k < other.placeholder_count ==> #[trigger] other.placeholders@[k].location
                        + self.len <= usize::MAX,
                out.bytes == self.bytes,
                out.len == self.len,
                out.placeholder_count == self.placeholder_count,
                out.placeholders@.len() == 4,
                forall|k: int|
                    0 <= k < self.placeholder_count ==> out.placeholders@[k]
                        == self.placeholders@[k],
                forall|k: int|
                    0 <= k < i ==> out.placeholders@[self.placeholder_count + k] == (Placeholder {
                        location: (other.placeholders@[k].location + self.len) as usize,
                        size: other.placeholders@[k].size,
                    }),
                forall|k: int|
                    self.placeholder_count + i <= k < 4 ==> out.placeholders@[k]
                        == self.placeholders@[k],
            decreases other.placeholder_count - i,
        {
            let mut placeholder = other.placeholders[i];
            placeholder.location += self.len;
            out.placeholders[self.placeholder_count + i] = placeholder;
            i += 1;
        }
        out.placeholder_count += other.placeholder_count;
        assert(out.placeholders@ =~= self.holes() + shifted(other.holes(), self.len as int)
            + self.placeholders@.skip(self.placeholder_count + other.placeholder_count));
        let ghost placed = out.placeholders;
        let mut i: usize = 0;
        while i < other.len
            invariant
                i <= other.len,
                out.placeholders == placed,
                out.placeholder_count == self.placeholder_count + other.placeholder_count,
                self.len + other.len <= 64,
                out.len == self.len,
                out.bytes@.len() == 64,
                forall|k: int| 0 <= k < self.len ==> out.bytes@[k] == self.bytes@[k],
                forall|k: int| 0 <= k < i ==> out.bytes@[self.len + k] == other.bytes@[k],
                forall|k: int| self.len + i <= k < 64 ==> out.bytes@[k] == self.bytes@[k],
            decreases other.len - i,
        {
            out.bytes[self.len + i] = other.bytes[i];
            i += 1;
        }
        out.len += other.len;
        assert(out.bytes@ =~= self.content() + other.content() + self.bytes@.skip(
            self.len + other.len,
        ));
        assert(out.content() =~= self.content() + other.content());
        assert(out.holes() =~= self.holes() + shifted(other.holes(), self.len as int));
        proof {
            if self.tidy() {
                assert(self.bytes@.skip(self.len + other.len) =~= zero_bytes(
                    (64 - self.len - other.len) as nat,
                ));
                assert(out.bytes@ =~= out.content() + zero_bytes((64 - out.len) as nat));
                assert(self.placeholders@.skip(self.placeholder_count + other.placeholder_count)
                    =~= unset_slots((4 - self.placeholder_count - other.placeholder_count) as nat));
                assert(out.placeholders@ =~= out.holes() + unset_slots(
                    (4 - out.placeholder_count) as nat,
                ));
            }
        }
        out
    }

    /// All the templates, one after the other (see [`Template::merge`]).
    pub fn merged<const N: usize>(templates: [Self; N]) -> (t: Self)
        requires
            total_len(templates@, N as int) <= 64,
            total_count(templates@, N as int) <= 4,
            shifts_fit(templates@),
        ensures
            t.len == total_len(templates@, N as int),
            t.placeholder_count == total_count(templates@, N as int),
            t.bytes@ == concat_content(templates@, N as int) + zero_bytes(
                (64 - total_len(templates@, N as int)) as nat,
            ),
            t.placeholders@ == concat_holes(templates@, N as int) + unset_slots(
                (4 - total_count(templates@, N as int)) as nat,
            ),
    {
        let ghost ts = templates@;
        let mut out = Self::empty();
        let mut i: usize = 0;
        assert(out.bytes@ =~= concat_content(ts, 0) + zero_bytes(64));
        assert(out.placeholders@ =~= concat_holes(ts, 0) + unset_slots(4));
        while i < N
            invariant
                ts == templates@,
                ts.len() == N,
                i <= N,
                total_len(ts, N as int) <= 64,
                total_count(ts, N as int) <= 4,
                shifts_fit(ts),
                out.len == total_len(ts, i as int),
                out.placeholder_count == total_count(ts, i as int),
                out.bytes@ == concat_content(ts, i as int) + zero_bytes(
                    (64 - total_len(ts, i as int)) as nat,
                ),
                out.placeholders@ == concat_holes(ts, i as int) + unset_slots(
                    (4 - total_count(ts, i as int)) as nat,
                ),
            decreases N - i,
        {
            proof {
                lemma_totals_monotone(ts, i as int, N as int);
                lemma_totals_monotone(ts, i as int + 1, N as int);
            }
            let ghost prev = out;
            let ghost next = ts[i as int];
            assert(concat_content(ts, i as int).len() == total_len(ts, i as int)) by {
                assert(prev.bytes@.len() == 64);
                assert((concat_content(ts, i as int) + zero_bytes(
                    (64 - total_len(ts, i as int)) as nat,
                )).len() == 64);
            }
            assert(concat_holes(ts, i as int).len() == total_count(ts, i as int)) by {
                assert(prev.placeholders@.len() == 4);
            }
            assert forall|k: int|
                0 <= k < next.placeholder_count implies #[trigger] next.placeholders@[k].location
                + prev.len <= usize::MAX by {
                assert(ts[i as int].placeholders@[k] == next.placeholders@[k]);
            }
            out = out.merge(&templates[i]);
            assert(prev.content() =~= concat_content(ts, i as int));
            assert(prev.holes() =~= concat_holes(ts, i as int));
            assert(out.bytes@ =~= concat_content(ts, i + 1) + zero_bytes(
                (64 - total_len(ts, i + 1)) as nat,
            ));
            assert(out.placeholders@ =~= concat_holes(ts, i + 1) + unset_slots(
                (4 - total_count(ts, i + 1)) as nat,
            ));
            i += 1;
        }
        out
    }

    /// The template itself, whose length must be `expected`.
    pub fn assert_len(self, expected: usize) -> (t: Self)
        requires
            self.len == expected,
        ensures
            t == self,
    {
        self
    }

    /// Returns the buffer, but only if all the placeholders are resolved.
    pub fn buffer<const N: usize>(&self) -> (out: Option<[u8; N]>)
        requires
            self.placeholder_count > 0 || self.len != N || N <= 64,
        ensures
            out is Some <==> (self.placeholder_count == 0 && self.len == N),
            out matches Some(b) ==> b@ == self.content(),
    {
        if self.placeholder_count > 0 || self.len != N {
            return None;
        }
        let mut out = [0u8; N];
        let mut i: usize = 0;
        while i < N
            invariant
                i <= N <= 64,
                self.len == N,
                out@.len() == N,
                forall|k: int| 0 <= k < i ==> out@[k] == self.bytes@[k],
            decreases N - i,
        {
            out[i] = self.bytes[i];
            i += 1;
        }
        assert(out@ =~= self.content());
        Some(out)
    }

    /// Is the template (if interpreted as a number of any usual size) this value?
    ///
    /// True exactly when the template has no placeholders, is 1, 2, 4 or 8 bytes long, and its
    /// bytes read as a little-endian integer of that width equal `expected` cut to that width.
    pub fn is_le_int(&self, expected: i64) -> (r: bool)
        ensures
            r == self.le_int_matches(expected),
    {
        if self.placeholder_count > 0 {
            return false;
        }
        match self.len {
            1 => {
                let v = le_value(&self.bytes, 1);
                v as i8 == expected as i8
            },
            2 => {
                let v = le_value(&self.bytes, 2);
                v as i16 == expected as i16
            },
            4 => {
                let v = le_value(&self.bytes, 4);
                v as i32 == expected as i32
            },
            8 => {
                let v = le_value(&self.bytes, 8);
                v as i64 == expected
            },
            _ => false,
        }
    }
}

proof fn lemma_pow256_small(k: nat)
    requires
        k <= 7,
    ensures
        256 * pow256(k) <= 0x1_0000_0000_0000_0000,
{
    reveal_with_fuel(pow256, 9);
}

/// The first `n` bytes read as a little-endian unsigned integer.
fn le_value(bytes: &[u8; 64], n: usize) -> (v: u64)
    requires
        n <= 8,
    ensures
        v == le_int(bytes@.take(n as int)),
{
    let mut v: u64 = 0;
    let mut i: usize = n;
    assert(bytes@.subrange(n as int, n as int) =~= Seq::<u8>::empty());
    while i > 0
        invariant
            i <= n <= 8,
            bytes@.len() == 64,
            v == le_int(bytes@.subrange(i as int, n as int)),
            v < pow256((n - i) as nat),
        decreases i,
    {
        let ghost k = (n - i) as nat;
        proof {
            lemma_pow256_small(k);
        }
        assert(pow256(k + 1) == 256 * pow256(k));
        i -= 1;
        v = v * 256 + bytes[i] as u64;
        assert(bytes@.subrange(i as int, n as int).drop_first() =~= bytes@.subrange(
            i + 1,
            n as int,
        ));
    }
    assert(bytes@.subrange(0, n as int) =~= bytes@.take(n as int));
    v
}

} // verus!
