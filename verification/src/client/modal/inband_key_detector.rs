use vstd::prelude::*;

verus! {

/// A byte buffer that notices when a key is pressed in the bytes written to it. A key on its own
/// only makes a press possible; the same key right after it escapes it, and any other byte after
/// it completes the press. Every written byte is buffered and can be read back in order.
#[derive(Clone, Debug)]
pub struct InbandKeyDetector {
    bytes: Vec<u8>,
    key: char,
    is_possible: bool,
    key_found: bool,
}

/// The mathematical value of an `InbandKeyDetector`.
pub struct InbandKeyDetectorView {
    pub bytes: Seq<u8>,
    pub key: char,
    pub is_possible: bool,
    pub key_found: bool,
}

impl InbandKeyDetectorView {
    /// The byte is the key.
    pub open spec fn is_key(self, b: u8) -> bool {
        b as u32 == self.key as u32
    }

    /// The state after one more byte.
    pub open spec fn after_byte(self, b: u8) -> InbandKeyDetectorView {
        InbandKeyDetectorView {
            bytes: self.bytes.push(b),
            is_possible: if self.is_possible { false } else { self.is_key(b) },
            key_found: self.key_found || (self.is_possible && !self.is_key(b)),
            ..self
        }
    }

    /// The state after the bytes of `buf`, in order.
    pub open spec fn after_write(self, buf: Seq<u8>) -> InbandKeyDetectorView
        decreases buf.len(),
    {
        if buf.len() == 0 {
            self
        } else {
            self.after_write(buf.drop_last()).after_byte(buf.last())
        }
    }
}

/// Writing `a` and then `b` leaves the detector as writing `a` followed by `b` at once does.
pub proof fn lemma_writes_compose(s: InbandKeyDetectorView, a: Seq<u8>, b: Seq<u8>)
    ensures
        s.after_write(a + b) == s.after_write(a).after_write(b),
    decreases b.len(),
{
    if b.len() == 0 {
        assert(a + b =~= a);
    } else {
        lemma_writes_compose(s, a, b.drop_last());
        assert((a + b).drop_last() =~= a + b.drop_last());
        assert((a + b).last() == b.last());
    }
}

/// Every byte written is kept for reading, in the order written, after what was there.
pub proof fn lemma_write_keeps_bytes(s: InbandKeyDetectorView, buf: Seq<u8>)
    ensures
        s.after_write(buf).bytes == s.bytes + buf,
        s.after_write(buf).key == s.key,
    decreases buf.len(),
{
    if buf.len() == 0 {
        assert(s.bytes + buf =~= s.bytes);
    } else {
        lemma_write_keeps_bytes(s, buf.drop_last());
        assert(s.bytes + buf =~= (s.bytes + buf.drop_last()).push(buf.last()));
    }
}

/// Once found, the key stays found whatever is written after.
pub proof fn lemma_found_stays_found(s: InbandKeyDetectorView, buf: Seq<u8>)
    requires
        s.key_found,
    ensures
        s.after_write(buf).key_found,
    decreases buf.len(),
{
    if buf.len() > 0 {
        lemma_found_stays_found(s, buf.drop_last());
    }
}

/// From a fresh detector: the key written twice is an escaped key, not a press, and the key
/// followed by any other byte is a press.
pub proof fn lemma_key_press_and_escape(s: InbandKeyDetectorView, k: u8, b: u8)
    requires
        !s.is_possible,
        !s.key_found,
        s.is_key(k),
        !s.is_key(b),
    ensures
        !s.after_write(seq![k, k]).key_found,
        !s.after_write(seq![k, k]).is_possible,
        s.after_write(seq![k, b]).key_found,
{
    assert(seq![k, k].drop_last() =~= seq![k]);
    assert(seq![k].drop_last() =~= Seq::<u8>::empty());
    assert(seq![k, b].drop_last() =~= seq![k]);
    assert(s.after_write(Seq::<u8>::empty()) == s);
    assert(s.after_write(seq![k]) == s.after_byte(k));
    assert(s.after_write(seq![k, k]) == s.after_byte(k).after_byte(k));
    assert(s.after_write(seq![k, b]) == s.after_byte(k).after_byte(b));
}

impl View for InbandKeyDetector {
    type V = InbandKeyDetectorView;

    closed spec fn view(&self) -> InbandKeyDetectorView {
        InbandKeyDetectorView {
            bytes: self.bytes@,
            key: self.key,
            is_possible: self.is_possible,
            key_found: self.key_found,
        }
    }
}

impl InbandKeyDetector {
    pub fn new(key: char) -> (r: InbandKeyDetector)
        ensures
            r@ == (InbandKeyDetectorView {
                bytes: Seq::empty(),
                key: key,
                is_possible: false,
                key_found: false,
            }),
    {
        InbandKeyDetector { bytes: Vec::new(), key: key, is_possible: false, key_found: false }
    }

    /// Whether a press of the key has been written.
    pub fn key_found(&self) -> (r: bool)
        ensures
            r == self@.key_found,
    {
        self.key_found
    }

    /// Moves up to `buf.len()` buffered bytes, oldest first, into the front of `buf`.
    pub fn read(&mut self, buf: &mut [u8]) -> (r: std::io::Result<usize>)
        ensures
            r matches Ok(n) && n == vstd::math::min(old(buf)@.len() as int, old(self)@.bytes.len() as int),
            final(buf)@ == old(self)@.bytes.take(r->Ok_0 as int) + old(buf)@.skip(r->Ok_0 as int),
            final(self)@ == (InbandKeyDetectorView { bytes: old(self)@.bytes.skip(r->Ok_0 as int), ..old(self)@ }),
    {
        let mut end_index = buf.len();
        if end_index > self.bytes.len() {
            end_index = self.bytes.len();
        }
        let tail = self.bytes.split_off(end_index);

        let mut i: usize = 0;
        while i < end_index
            invariant
                end_index <= buf@.len(),
                self.bytes@.len() == end_index,
                i <= end_index,
                buf@.len() == old(buf)@.len(),
                forall|j: int| 0 <= j < i ==> buf@[j] == self.bytes@[j],
                forall|j: int| i <= j < buf@.len() ==> buf@[j] == old(buf)@[j],
            decreases end_index - i,
        {
            buf[i] = self.bytes[i];
            i = i + 1;
        }
        proof {
            assert(buf@ =~= old(self)@.bytes.take(end_index as int) + old(buf)@.skip(end_index as int));
        }
        self.bytes = tail;
        Ok(end_index)
    }

    /// Reads every buffered byte onto the end of `out`.
    pub fn read_to_end(&mut self, out: &mut Vec<u8>) -> (r: std::io::Result<usize>)
        ensures
            r matches Ok(n) && n == old(self)@.bytes.len(),
            final(out)@ == old(out)@ + old(self)@.bytes,
            final(self)@ == (InbandKeyDetectorView { bytes: Seq::empty(), ..old(self)@ }),
    {
        let n = self.bytes.len();
        let mut i: usize = 0;
        while i < n
            invariant
                n == self.bytes@.len(),
                i <= n,
                out@ == old(out)@ + self.bytes@.take(i as int),
            decreases n - i,
        {
            out.push(self.bytes[i]);
            i = i + 1;
            assert(self.bytes@.take(i as int) == self.bytes@.take((i - 1) as int).push(self.bytes@[i - 1]));
        }
        assert(self.bytes@.take(n as int) == self.bytes@);
        self.bytes = Vec::new();
        Ok(n)
    }

    /// Buffers all of `buf`, watching it for the key.
    pub fn write(&mut self, buf: &[u8]) -> (r: std::io::Result<usize>)
        ensures
            r matches Ok(n) && n == buf@.len(),
            final(self)@ == old(self)@.after_write(buf@),
    {
        let mut i: usize = 0;
        while i < buf.len()
            invariant
                i <= buf@.len(),
                self@ == old(self)@.after_write(buf@.take(i as int)),
            decreases buf@.len() - i,
        {
            let byte = buf[i];
            let is_key = byte as u32 == self.key as u32;
            proof {
                assert(buf@.take(i + 1).drop_last() == buf@.take(i as int));
            }
            if self.is_possible && !is_key {
                self.key_found = true;
            }
            self.is_possible = if self.is_possible { false } else { is_key };
            self.bytes.push(byte);
            i = i + 1;
        }
        assert(buf@.take(buf@.len() as int) == buf@);
        Ok(buf.len())
    }

    pub fn flush(&mut self) -> (r: std::io::Result<()>)
        ensures
            r is Ok,
            final(self)@ == old(self)@,
    {
        Ok(())
    }
}

} // verus!
