use vstd::prelude::*;

verus! {

/// A byte buffer that watches the bytes written to it for a key. The key on its own only makes a
/// match possible: a second key right after it escapes it, and any other byte after it means the
/// key was pressed. Writing stops there, and the key itself is taken back out of the buffer.
#[derive(Clone, Debug)]
pub struct InputHandler {
    bytes: Vec<u8>,
    key: u8,
    key_found: bool,
    is_possible: bool,
}

/// The mathematical value of an `InputHandler`.
pub struct InputHandlerView {
    pub bytes: Seq<u8>,
    pub key: u8,
    pub key_found: bool,
    pub is_possible: bool,
}

/// A sequence without its last element; the empty sequence stays empty.
pub open spec fn without_last(s: Seq<u8>) -> Seq<u8> {
    if s.len() > 0 { s.drop_last() } else { s }
}

impl InputHandlerView {
    /// What writing `buf` does: the state afterwards and the number of bytes taken.
    pub open spec fn after_write(self, buf: Seq<u8>) -> (InputHandlerView, nat)
        decreases buf.len(),
    {
        if buf.len() == 0 {
            (self, 0)
        } else {
            let b = buf[0];
            if self.is_possible && b != self.key {
                (InputHandlerView { key_found: true, bytes: without_last(self.bytes), ..self }, 0)
            } else {
                let next = InputHandlerView {
                    is_possible: if self.is_possible { false } else { b == self.key },
                    bytes: self.bytes.push(b),
                    ..self
                };
                let r = next.after_write(buf.drop_first());
                (r.0, r.1 + 1)
            }
        }
    }
}

/// Bytes without the key, written when no key is pending, are all taken and kept in order.
pub proof fn lemma_write_without_key(s: InputHandlerView, buf: Seq<u8>)
    requires
        !s.is_possible,
        !buf.contains(s.key),
    ensures
        s.after_write(buf) == (InputHandlerView { bytes: s.bytes + buf, ..s }, buf.len()),
    decreases buf.len(),
{
    if buf.len() == 0 {
        assert(s.bytes + buf =~= s.bytes);
    } else {
        let next = InputHandlerView { bytes: s.bytes.push(buf[0]), ..s };
        assert(!buf.drop_first().contains(s.key)) by {
            if buf.drop_first().contains(s.key) {
                let i = choose|i: int| 0 <= i < buf.drop_first().len() && buf.drop_first()[i] == s.key;
                assert(buf[i + 1] == s.key);
            }
        }
        assert(buf[0] != s.key) by {
            assert(buf.contains(buf[0]));
        }
        lemma_write_without_key(next, buf.drop_first());
        assert(next.bytes + buf.drop_first() =~= s.bytes + buf);
    }
}

/// A write takes no more bytes than it is given; when it takes fewer, the key has been pressed.
pub proof fn lemma_write_stops_only_at_a_press(s: InputHandlerView, buf: Seq<u8>)
    ensures
        s.after_write(buf).1 <= buf.len(),
        s.after_write(buf).1 < buf.len() ==> s.after_write(buf).0.key_found,
        s.key_found ==> s.after_write(buf).0.key_found,
    decreases buf.len(),
{
    if buf.len() > 0 {
        let b = buf[0];
        if !(s.is_possible && b != s.key) {
            let next = InputHandlerView {
                is_possible: if s.is_possible { false } else { b == s.key },
                bytes: s.bytes.push(b),
                ..s
            };
            lemma_write_stops_only_at_a_press(next, buf.drop_first());
        }
    }
}

impl View for InputHandler {
    type V = InputHandlerView;

    closed spec fn view(&self) -> InputHandlerView {
        InputHandlerView {
            bytes: self.bytes@,
            key: self.key,
            key_found: self.key_found,
            is_possible: self.is_possible,
        }
    }
}

impl InputHandler {
    pub fn new(key: u8) -> (r: InputHandler)
        ensures
            r@ == (InputHandlerView {
                bytes: Seq::empty(),
                key: key,
                key_found: false,
                is_possible: false,
            }),
    {
        InputHandler { bytes: Vec::new(), key: key, key_found: false, is_possible: false }
    }

    pub fn key_found(&self) -> (r: bool)
        ensures
            r == self@.key_found,
    {
        self.key_found
    }

    /// Moves up to `buf.len()` buffered bytes, oldest first, into the front of `buf`.
    pub fn read(&mut self, buf: &mut [u8]) -> (r: std::io::Result<usize>)
        ensures
            r matches Ok(n) && n == vstd::math::min(old(buf)@.len() as int, old(self)@.bytes.len() as int),
            final(buf)@ == old(self)@.bytes.take(r->Ok_0 as int) + old(buf)@.skip(r->Ok_0 as int),
            final(self)@ == (InputHandlerView { bytes: old(self)@.bytes.skip(r->Ok_0 as int), ..old(self)@ }),
    {
        let mut end_index = buf.len();
        if end_index > self.bytes.len() {
            end_index = self.bytes.len();
        }
        let tail = self.bytes.split_off(end_index);

        let mut i: usize = 0;
        while i < end_index
            invariant
                end_index <= buf@.len(),
                self.bytes@.len() == end_index,
                i <= end_index,
                buf@.len() == old(buf)@.len(),
                forall|j: int| 0 <= j < i ==> buf@[j] == self.bytes@[j],
                forall|j: int| i <= j < buf@.len() ==> buf@[j] == old(buf)@[j],
            decreases end_index - i,
        {
            buf[i] = self.bytes[i];
            i = i + 1;
        }
        proof {
            assert(buf@ =~= old(self)@.bytes.take(end_index as int) + old(buf)@.skip(end_index as int));
        }
        self.bytes = tail;
        Ok(end_index)
    }

    /// Reads every buffered byte onto the end of `out`.
    pub fn read_to_end(&mut self, out: &mut Vec<u8>) -> (r: std::io::Result<usize>)
        ensures
            r matches Ok(n) && n == old(self)@.bytes.len(),
            final(out)@ == old(out)@ + old(self)@.bytes,
            final(self)@ == (InputHandlerView { bytes: Seq::empty(), ..old(self)@ }),
    {
        let n = self.bytes.len();
        let mut i: usize = 0;
        while i < n
            invariant
                n == self.bytes@.len(),
                i <= n,
                out@ == old(out)@ + self.bytes@.take(i as int),
            decreases n - i,
        {
            out.push(self.bytes[i]);
            i = i + 1;
            assert(self.bytes@.take(i as int) == self.bytes@.take((i - 1) as int).push(self.bytes@[i - 1]));
        }
        assert(self.bytes@.take(n as int) == self.bytes@);
        self.bytes = Vec::new();
        Ok(n)
    }

    /// Buffers the bytes of `buf` up to the point where the key is found, and says how many it
    /// took.
    pub fn write(&mut self, buf: &[u8]) -> (r: std::io::Result<usize>)
        ensures
            r matches Ok(n) && n == old(self)@.after_write(buf@).1,
            final(self)@ == old(self)@.after_write(buf@).0,
    {
        let mut read: usize = 0;
        let mut i: usize = 0;
        assert(buf@.skip(0) == buf@);
        while i < buf.len()
            invariant_except_break
                i <= buf@.len(),
                read == i,
                old(self)@.after_write(buf@) == (self@.after_write(buf@.skip(i as int)).0,
                    (self@.after_write(buf@.skip(i as int)).1 + read) as nat),
            ensures
                old(self)@.after_write(buf@) == (self@, read as nat),
            decreases buf@.len() - i,
        {
            let byte = buf[i];
            proof {
                assert(buf@.skip(i as int)[0] == byte);
                assert(buf@.skip(i as int).drop_first() == buf@.skip(i + 1));
            }
            let is_escape = self.is_possible && byte == self.key;
            if self.is_possible && !is_escape {
                self.key_found = true;
                self.bytes.pop();
                break;
            } else if is_escape {
                self.is_possible = false;
            } else {
                self.is_possible = byte == self.key;
            }
            read = read + 1;
            self.bytes.push(byte);
            i = i + 1;
        }
        Ok(read)
    }

    pub fn flush(&mut self) -> (r: std::io::Result<()>)
        ensures
            r is Ok,
            final(self)@ == old(self)@,
    {
        Ok(())
    }
}

} // verus!
