//! Mailbox property-protocol codec: a request buffer of 32-bit words —
//! `[total size][request code][tag...]* [end tag]`, each tag
//! `[identifier][buffer length][response code][payload words]` — and
//! the reading of tag results out of the response.  The exchange
//! itself (writing the buffer's address to the mailbox register and
//! spinning on its status) is hardware work done outside the library,
//! which only ever sees the words.

use vstd::prelude::*;

verus! {

/// High bit of a tag's response code: the device processed the tag.
pub const TAG_RESPONSE_BIT: u32 = 0x8000_0000;

/// A property-protocol tag: its identifier and how many response
/// payload words it expects.
pub trait PropertyTag {
    fn identifier(&self) -> u32;

    fn recv_word_count(&self) -> usize;
}

/// The words one tag contributes to a request: identifier, payload
/// length in bytes, a zeroed request code, and the payload — the sent
/// words, zero-padded to the larger of sent and expected sizes.
pub open spec fn tag_words_s(id: u32, send: Seq<u32>, recv: int) -> Seq<u32> {
    let n: int = if send.len() >= recv {
        send.len() as int
    } else {
        recv
    };
    seq![id, (n * 4) as u32, 0u32] + Seq::new(
        n as nat,
        |i: int|
            if i < send.len() {
                send[i]
            } else {
                0u32
            },
    )
}

/// The word a tag-result read returns: the `off`-th payload word of
/// tag `tag`, provided a response was accepted, the tag exists, its
/// response code has the success bit, and the echoed payload length
/// covers the word.
pub open spec fn tag_result_word_s(
    words: Seq<u32>,
    tags: Seq<usize>,
    has_result: bool,
    tag: int,
    off: int,
) -> Option<u32> {
    if !has_result || !(0 <= tag < tags.len()) {
        None
    } else {
        let ti = tags[tag] as int;
        if ti + 3 + off >= words.len() {
            None
        } else {
            let code = words[ti + 2];
            if (code >> 31) != 1 {
                None
            } else if (code & 0x7FFF_FFFF) < ((off + 1) * 4) {
                None
            } else {
                Some(words[ti + 3 + off])
            }
        }
    }
}

/// The mailbox request/response buffer.
pub struct MailboxBuffer {
    words: Vec<u32>,
    tag_idx: Vec<usize>,
    has_result: bool,
}

impl MailboxBuffer {
    pub closed spec fn words(&self) -> Seq<u32> {
        self.words@
    }

    pub closed spec fn tags(&self) -> Seq<usize> {
        self.tag_idx@
    }

    pub closed spec fn has_result(&self) -> bool {
        self.has_result
    }

    pub closed spec fn wf(&self) -> bool {
        &&& 2 <= self.words@.len() <= 0xFFFF
        &&& forall|k: int|
            0 <= k < self.tag_idx@.len() ==> #[trigger] self.tag_idx@[k] + 3 <= self.words@.len()
    }

    /// Number of words in the buffer.
    pub fn words_len(&self) -> (r: usize)
        ensures
            r == self.words().len(),
    {
        self.words.len()
    }

    /// The word at `i`.
    pub fn word_at(&self, i: usize) -> (r: u32)
        requires
            i < self.words().len(),
        ensures
            r == self.words()[i as int],
    {
        self.words[i]
    }

    /// An empty request: the size placeholder and the request code.
    pub fn new() -> (r: Self)
        ensures
            r.wf(),
            r.words() == seq![0u32, 0u32],
            r.tags() == Seq::<usize>::empty(),
            !r.has_result(),
    {
        let mut words: Vec<u32> = Vec::new();
        words.push(0);
        words.push(0);
        proof {
            assert(words@ =~= seq![0u32, 0u32]);
        }
        MailboxBuffer { words, tag_idx: Vec::new(), has_result: false }
    }

    /// Appends one tag: its identifier, its payload length, a zero
    /// response code, and the payload (`send`, padded with zeroes up
    /// to `recv_words`).
    pub fn append_tag(&mut self, identifier: u32, send: &Vec<u32>, recv_words: usize)
        requires
            old(self).wf(),
            send@.len() <= 0x1000,
            recv_words <= 0x1000,
            old(self).words().len() + 3 + 0x1000 <= 0xFFFF,
        ensures
            final(self).wf(),
            final(self).words() == old(self).words() + tag_words_s(
                identifier,
                send@,
                recv_words as int,
            ),
            final(self).tags() == old(self).tags().push((old(self).words().len() as usize)),
            !final(self).has_result(),
    {
        let ghost w0 = self.words@;
        let n = if send.len() >= recv_words {
            send.len()
        } else {
            recv_words
        };
        let here = self.words.len();
        self.tag_idx.push(here);
        self.has_result = false;
        self.words.push(identifier);
        self.words.push((n as u32) * 4);
        self.words.push(0);
        let ghost tags1 = self.tag_idx@;
        let mut i: usize = 0;
        while i < n
            invariant
                i <= n,
                n == if send@.len() >= recv_words {
                    send@.len()
                } else {
                    recv_words as nat
                },
                n <= 0x1000,
                w0.len() + 3 + 0x1000 <= 0xFFFF,
                2 <= w0.len(),
                self.tag_idx@ == tags1,
                tags1 == old(self).tags().push((w0.len() as usize)),
                forall|k: int|
                    0 <= k < tags1.len() ==> #[trigger] tags1[k] + 3 <= w0.len() + 3,
                !self.has_result,
                self.words@.len() == w0.len() + 3 + i,
                self.words@ == w0 + seq![identifier, ((n as int) * 4) as u32, 0u32] + Seq::new(
                    i as nat,
                    |k: int|
                        if k < send@.len() {
                            send@[k]
                        } else {
                            0u32
                        },
                ),
            decreases n - i,
        {
            let v = if i < send.len() {
                send[i]
            } else {
                0
            };
            proof {
                assert((w0 + seq![identifier, ((n as int) * 4) as u32, 0u32] + Seq::new(
                    i as nat,
                    |k: int|
                        if k < send@.len() {
                            send@[k]
                        } else {
                            0u32
                        },
                )).push(v) =~= w0 + seq![identifier, ((n as int) * 4) as u32, 0u32] + Seq::new(
                    (i + 1) as nat,
                    |k: int|
                        if k < send@.len() {
                            send@[k]
                        } else {
                            0u32
                        },
                ));
            }
            self.words.push(v);
            i += 1;
        }
        proof {
            assert(self.words@ =~= w0 + tag_words_s(identifier, send@, recv_words as int));
            assert(self.words@ == w0 + seq![identifier, ((n as int) * 4) as u32, 0u32] + Seq::new(
                n as nat,
                |k: int|
                    if k < send@.len() {
                        send@[k]
                    } else {
                        0u32
                    },
            ));
        }
    }

    /// Closes the request: appends the end tag and writes the total
    /// size, in bytes, into the leading word.
    pub fn finalize(&mut self)
        requires
            old(self).wf(),
            old(self).words().len() + 1 <= 0xFFFF,
        ensures
            final(self).wf(),
            final(self).words() == old(self).words().push(0u32).update(
                0,
                ((old(self).words().len() + 1) * 4) as u32,
            ),
            final(self).tags() == old(self).tags(),
            final(self).has_result() == old(self).has_result(),
    {
        self.words.push(0);
        let total = (self.words.len() as u32) * 4;
        self.words[0] = total;
    }

    /// Takes in what the hardware wrote back.  The response is
    /// accepted when it has the same shape and its request/response
    /// word holds the success code; an accepted response replaces the
    /// buffer's words.
    pub fn accept_response(&mut self, response: Vec<u32>) -> (ok: bool)
        requires
            old(self).wf(),
        ensures
            final(self).wf(),
            final(self).tags() == old(self).tags(),
            ok == (response@.len() == old(self).words().len() && response@[1] == TAG_RESPONSE_BIT),
            ok ==> final(self).words() == response@ && final(self).has_result(),
            !ok ==> final(self).words() == old(self).words() && !final(self).has_result(),
    {
        if response.len() == self.words.len() && response[1] == TAG_RESPONSE_BIT {
            self.words = response;
            self.has_result = true;
            true
        } else {
            self.has_result = false;
            false
        }
    }

    /// The `word_off`-th payload word of tag `tag` in the accepted
    /// response, or `None` when there is no accepted response, the tag
    /// does not exist, the device did not mark it processed, or the
    /// echoed payload is too short.
    pub fn read_tag_result(&self, tag: usize, word_off: usize) -> (r: Option<u32>)
        requires
            self.wf(),
            word_off <= 0x1000,
        ensures
            r == tag_result_word_s(
                self.words(),
                self.tags(),
                self.has_result(),
                tag as int,
                word_off as int,
            ),
    {
        if !self.has_result {
            return None;
        }
        if tag >= self.tag_idx.len() {
            return None;
        }
        let ti = self.tag_idx[tag];
        if word_off >= self.words.len() - 3 - ti {
            return None;
        }
        let code = self.words[ti + 2];
        if (code >> 31) != 1 {
            return None;
        }
        if (code & 0x7FFF_FFFF) < ((word_off as u32) + 1) * 4 {
            return None;
        }
        Some(self.words[ti + 3 + word_off])
    }
}

} // verus!
