//! Splitting a child process's output stream into lines as it arrives.
//!
//! Bytes are fed in chunks of any size; every `\n` ends a line, the `\n`
//! itself and one `\r` just before it are dropped, and what follows the last
//! `\n` waits for more input.

use vstd::prelude::*;
use vstd::utf8::*;

verus! {

/// The byte that ends a line.
pub const NEWLINE: u8 = 10u8;

/// The byte dropped from the end of a line when it stands just before `\n`.
pub const CARRIAGE_RETURN: u8 = 13u8;

/// `line` without one trailing `\r`, if it has one.
pub open spec fn strip_cr(line: Seq<u8>) -> Seq<u8> {
    if line.len() > 0 && line.last() == CARRIAGE_RETURN {
        line.drop_last()
    } else {
        line
    }
}

/// The complete lines of `s` and the unterminated rest after its last `\n`.
pub open spec fn split_lines(s: Seq<u8>) -> (Seq<Seq<u8>>, Seq<u8>)
    decreases s.len(),
{
    if s.len() == 0 {
        (Seq::empty(), Seq::empty())
    } else {
        let prev = split_lines(s.drop_last());
        if s.last() == NEWLINE {
            (prev.0.push(strip_cr(prev.1)), Seq::empty())
        } else {
            (prev.0, prev.1.push(s.last()))
        }
    }
}

/// `s` holds no `\n`.
pub open spec fn no_newline(s: Seq<u8>) -> bool {
    forall|i: int| 0 <= i < s.len() ==> s[i] != NEWLINE
}

/// What `String::from_utf8_lossy` makes of `bytes`.
pub uninterp spec fn lossy_text(bytes: Seq<u8>) -> Seq<char>;

/// `String::from_utf8_lossy`, as an owned string. Its result is named
/// `lossy_text`; std documents that valid UTF-8 comes back as the string it
/// encodes, which the second clause states over vstd's UTF-8 model. What it
/// puts in place of invalid sequences is left unsaid.
#[verifier::external_body]
pub(crate) fn decode_lossy(bytes: &[u8]) -> (res: String)
    ensures
        res@ == lossy_text(bytes@),
        valid_utf8(bytes@) ==> res@ == decode_utf8(bytes@),
{
    String::from_utf8_lossy(bytes).into_owned()
}

/// The rest after the last `\n` never holds a `\n`.
pub proof fn lemma_rest_has_no_newline(s: Seq<u8>)
    ensures
        no_newline(split_lines(s).1),
    decreases s.len(),
{
    if s.len() > 0 {
        lemma_rest_has_no_newline(s.drop_last());
    }
}

/// Text without `\n` splits into no lines and itself.
pub proof fn lemma_split_without_newline(s: Seq<u8>)
    requires
        no_newline(s),
    ensures
        split_lines(s) == (Seq::<Seq<u8>>::empty(), s),
    decreases s.len(),
{
    if s.len() > 0 {
        lemma_split_without_newline(s.drop_last());
        assert(s.drop_last().push(s.last()) =~= s);
    }
}

/// Splitting `s + t` is splitting `s`, then splitting its rest followed by
/// `t`: where the input is cut into chunks does not change the lines.
pub proof fn lemma_split_concat(s: Seq<u8>, t: Seq<u8>)
    ensures
        split_lines(s + t) == ({
            let a = split_lines(s);
            let b = split_lines(a.1 + t);
            (a.0 + b.0, b.1)
        }),
    decreases t.len(),
{
    let a = split_lines(s);
    if t.len() == 0 {
        assert(s + t =~= s);
        lemma_rest_has_no_newline(s);
        lemma_split_without_newline(a.1);
        assert(a.1 + t =~= a.1);
        assert(a.0 + Seq::<Seq<u8>>::empty() =~= a.0);
    } else {
        lemma_split_concat(s, t.drop_last());
        assert((s + t).drop_last() =~= s + t.drop_last());
        assert((a.1 + t).drop_last() =~= a.1 + t.drop_last());
        assert((s + t).last() == t.last());
        assert((a.1 + t).last() == t.last());
        let b0 = split_lines(a.1 + t.drop_last());
        if t.last() == NEWLINE {
            assert((a.0 + b0.0).push(strip_cr(b0.1)) =~= a.0 + b0.0.push(strip_cr(b0.1)));
        }
    }
}

/// No complete line holds a `\n`.
pub proof fn lemma_lines_have_no_newline(s: Seq<u8>)
    ensures
        forall|i: int| 0 <= i < split_lines(s).0.len() ==> no_newline(#[trigger] split_lines(s).0[i]),
    decreases s.len(),
{
    if s.len() > 0 {
        lemma_lines_have_no_newline(s.drop_last());
        lemma_rest_has_no_newline(s.drop_last());
    }
}

/// The lines put back together, each followed by `\n`.
pub open spec fn reassemble(lines: Seq<Seq<u8>>) -> Seq<u8>
    decreases lines.len(),
{
    if lines.len() == 0 {
        Seq::empty()
    } else {
        reassemble(lines.drop_last()) + lines.last() + seq![NEWLINE]
    }
}

/// An ASCII byte of valid UTF-8 stands on a character boundary, so cutting
/// there leaves valid UTF-8 on both sides.
proof fn lemma_cut_at_ascii(s: Seq<u8>, k: int)
    requires
        valid_utf8(s),
        0 <= k < s.len(),
        s[k] < 128,
    ensures
        valid_utf8(s.subrange(0, k)),
        valid_utf8(s.subrange(k, s.len() as int)),
{
    is_char_boundary_iff_not_is_continuation_byte(s, k);
    valid_utf8_split(s, k);
}

/// Output that is valid UTF-8 splits into lines, and a rest, that are each
/// valid UTF-8: a `\n` never cuts a character.
pub proof fn lemma_valid_output_lines(s: Seq<u8>)
    requires
        valid_utf8(s),
    ensures
        forall|j: int| 0 <= j < split_lines(s).0.len() ==> valid_utf8(#[trigger] split_lines(s).0[j]),
        valid_utf8(split_lines(s).1),
    decreases s.len(),
{
    if no_newline(s) {
        lemma_split_without_newline(s);
    } else {
        let k = lemma_last_newline(s);
        let a = s.subrange(0, k);
        let b = s.subrange(k + 1, s.len() as int);
        lemma_cut_at_ascii(s, k);
        let tail = s.subrange(k, s.len() as int);
        assert(valid_first_scalar(tail) && valid_utf8(pop_first_scalar(tail)));
        assert(pop_first_scalar(tail) =~= b);
        lemma_valid_output_lines(a);
        let pa = split_lines(a);
        let head = a.push(NEWLINE);
        assert(head.drop_last() =~= a);
        assert(split_lines(head) == (pa.0.push(strip_cr(pa.1)), Seq::<u8>::empty()));
        assert(no_newline(b));
        lemma_split_without_newline(b);
        lemma_split_concat(head, b);
        assert(head + b =~= s);
        assert(Seq::<u8>::empty() + b =~= b);
        assert(pa.0.push(strip_cr(pa.1)) + Seq::<Seq<u8>>::empty() =~= pa.0.push(strip_cr(pa.1)));
        if pa.1.len() > 0 && pa.1.last() == CARRIAGE_RETURN {
            lemma_cut_at_ascii(pa.1, pa.1.len() - 1);
            assert(pa.1.subrange(0, pa.1.len() - 1) =~= pa.1.drop_last());
        }
        assert(valid_utf8(strip_cr(pa.1)));
        assert forall|j: int| 0 <= j < split_lines(s).0.len() implies valid_utf8(#[trigger] split_lines(s).0[j]) by {
            if j < pa.0.len() {
                assert(split_lines(s).0[j] == pa.0[j]);
            }
        }
    }
}

/// Output with a `\n` has a last one.
proof fn lemma_last_newline(s: Seq<u8>) -> (k: int)
    requires
        !no_newline(s),
    ensures
        0 <= k < s.len(),
        s[k] == NEWLINE,
        forall|m: int| k < m < s.len() ==> s[m] != NEWLINE,
    decreases s.len(),
{
    if s.last() == NEWLINE {
        (s.len() - 1) as int
    } else {
        let p = s.drop_last();
        assert(!no_newline(p)) by {
            let i = choose|i: int| 0 <= i < s.len() && s[i] == NEWLINE;
            assert(i < s.len() - 1);
            assert(p[i] == NEWLINE);
        }
        let k = lemma_last_newline(p);
        assert(s[k] == p[k]);
        assert forall|m: int| k < m < s.len() implies s[m] != NEWLINE by {
            if m < s.len() - 1 {
                assert(s[m] == p[m]);
            }
        }
        k
    }
}

/// `s` holds no `\r`.
pub open spec fn no_carriage_return(s: Seq<u8>) -> bool {
    forall|i: int| 0 <= i < s.len() ==> s[i] != CARRIAGE_RETURN
}

/// Splitting loses nothing but the `\r` before a `\n`: on input without
/// `\r`, the lines, each followed by `\n`, and then the rest give back the
/// input.
pub proof fn lemma_split_reassembles(s: Seq<u8>)
    requires
        no_carriage_return(s),
    ensures
        reassemble(split_lines(s).0) + split_lines(s).1 == s,
    decreases s.len(),
{
    if s.len() == 0 {
        assert(reassemble(Seq::<Seq<u8>>::empty()) + Seq::<u8>::empty() =~= s);
    } else {
        let p = s.drop_last();
        assert(no_carriage_return(p));
        lemma_split_reassembles(p);
        let prev = split_lines(p);
        if s.last() == NEWLINE {
            assert(prev.1.len() > 0 ==> prev.1.last() == p[p.len() - 1]) by {
                if prev.1.len() > 0 {
                    assert(p =~= reassemble(prev.0) + prev.1);
                    assert(p[p.len() - 1] == prev.1[prev.1.len() - 1]);
                }
            }
            assert(strip_cr(prev.1) == prev.1);
            assert(split_lines(s).0.drop_last() =~= prev.0);
            assert(reassemble(split_lines(s).0) + split_lines(s).1 =~= reassemble(prev.0) + prev.1 + seq![NEWLINE]);
            assert(p.push(s.last()) =~= s);
        } else {
            assert(reassemble(prev.0) + prev.1.push(s.last()) =~= (reassemble(prev.0) + prev.1).push(s.last()));
            assert(p.push(s.last()) =~= s);
        }
    }
}

/// The bytes of a stream that are not yet part of a complete line.
pub struct LineSplitter {
    pending: Vec<u8>,
}

impl View for LineSplitter {
    type V = Seq<u8>;

    closed spec fn view(&self) -> Seq<u8> {
        self.pending@
    }
}

impl LineSplitter {
    /// The pending bytes never hold a `\n`.
    #[verifier::type_invariant]
    spec fn no_pending_newline(self) -> bool {
        no_newline(self.pending@)
    }

    /// A splitter that has seen no bytes.
    pub fn new() -> (res: LineSplitter)
        ensures
            res@ == Seq::<u8>::empty(),
    {
        LineSplitter { pending: Vec::new() }
    }

    /// Feeds `chunk`: returns the lines that it completes, in order, and keeps
    /// what follows the last `\n`.
    pub fn feed(&mut self, chunk: &[u8]) -> (lines: Vec<Vec<u8>>)
        ensures
            lines@.map_values(|l: Vec<u8>| l@) == split_lines(old(self)@ + chunk@).0,
            final(self)@ == split_lines(old(self)@ + chunk@).1,
    {
        proof {
            use_type_invariant(&*self);
            lemma_split_without_newline(self.pending@);
        }
        let ghost start = self.pending@;
        let mut pending: Vec<u8> = Vec::new();
        std::mem::swap(&mut pending, &mut self.pending);
        let mut lines: Vec<Vec<u8>> = Vec::new();
        let mut i: usize = 0;
        while i < chunk.len()
            invariant
                i <= chunk.len(),
                split_lines(start) == (Seq::<Seq<u8>>::empty(), start),
                lines@.map_values(|l: Vec<u8>| l@) == split_lines(start + chunk@.take(i as int)).0,
                pending@ == split_lines(start + chunk@.take(i as int)).1,
            decreases chunk.len() - i,
        {
            let b = chunk[i];
            proof {
                assert((start + chunk@.take(i + 1)).drop_last() =~= start + chunk@.take(i as int));
                assert((start + chunk@.take(i + 1)).last() == b);
            }
            if b == NEWLINE {
                let mut line: Vec<u8> = Vec::new();
                std::mem::swap(&mut line, &mut pending);
                let n = line.len();
                if n > 0 && line[n - 1] == CARRIAGE_RETURN {
                    line.pop();
                }
                lines.push(line);
                proof {
                    assert(lines@.map_values(|l: Vec<u8>| l@) =~= split_lines(
                        start + chunk@.take(i + 1),
                    ).0);
                }
            } else {
                pending.push(b);
            }
            i += 1;
        }
        proof {
            assert(chunk@.take(chunk@.len() as int) =~= chunk@);
            lemma_rest_has_no_newline(start + chunk@);
        }
        self.pending = pending;
        lines
    }

    /// Ends the stream: the bytes after the last `\n`, if there are any.
    pub fn finish(self) -> (rest: Option<Vec<u8>>)
        ensures
            self@.len() == 0 ==> rest is None,
            self@.len() > 0 ==> (rest matches Some(r) && r@ == self@),
    {
        if self.pending.len() == 0 {
            None
        } else {
            Some(self.pending)
        }
    }
}


/// The text gathered from complete lines: each one decoded and followed by
/// `\n`, in order.
pub open spec fn joined_lines(lines: Seq<Seq<u8>>) -> Seq<char>
    decreases lines.len(),
{
    if lines.len() == 0 {
        Seq::empty()
    } else {
        joined_lines(lines.drop_last()) + lossy_text(lines.last()) + seq!['\n']
    }
}

/// Each line that is valid UTF-8 has the string it encodes as its text.
pub open spec fn valid_lines_decoded(lines: Seq<Seq<u8>>) -> bool {
    forall|j: int|
        0 <= j < lines.len() && valid_utf8(#[trigger] lines[j]) ==> lossy_text(lines[j])
            == decode_utf8(lines[j])
}

/// A valid UTF-8 text never starts with a continuation byte.
proof fn lemma_first_not_continuation(b: Seq<u8>)
    requires
        valid_utf8(b),
        b.len() > 0,
    ensures
        !is_continuation_byte(b[0]),
{
    assert(valid_first_scalar(b));
}

/// Valid UTF-8 texts one after another are valid UTF-8, and decode to their
/// decodings one after another.
proof fn lemma_decode_concat(a: Seq<u8>, b: Seq<u8>)
    requires
        valid_utf8(a),
        valid_utf8(b),
    ensures
        valid_utf8(a + b),
        decode_utf8(a + b) == decode_utf8(a) + decode_utf8(b),
{
    valid_utf8_concat(a, b);
    let s = a + b;
    if b.len() == 0 {
        assert(s =~= a);
        assert(decode_utf8(a) + decode_utf8(b) =~= decode_utf8(a));
    } else {
        lemma_first_not_continuation(b);
        assert(s[a.len() as int] == b[0]);
        is_char_boundary_iff_not_is_continuation_byte(s, a.len() as int);
        decode_utf8_split(s, a.len() as int);
        assert(s.subrange(0, a.len() as int) =~= a);
        assert(s.subrange(a.len() as int, s.len() as int) =~= b);
    }
}

/// The byte `\n` alone is valid UTF-8 for the text `\n`.
proof fn lemma_decode_newline()
    ensures
        valid_utf8(seq![NEWLINE]),
        decode_utf8(seq![NEWLINE]) == seq!['\n'],
{
    let b = seq![NEWLINE];
    assert((10u8 & 0x7Fu8) == 10u8) by (bit_vector);
    assert(b[0] == 10u8);
    assert(decode_first_codepoint(b) == 10u32);
    assert(valid_first_scalar(b));
    assert(pop_first_scalar(b) =~= Seq::<u8>::empty());
    reveal_with_fuel(valid_utf8, 2);
    reveal_with_fuel(decode_utf8, 2);
    assert(valid_utf8(b));
    assert((10u32 as char) == '\n');
    assert(decode_utf8(b) =~= seq!['\n']);
}

/// Complete lines that are valid UTF-8 and decoded as such: their gathered
/// text is the decoding of the lines, each followed by `\n`.
proof fn lemma_joined_decodes(lines: Seq<Seq<u8>>)
    requires
        forall|j: int| 0 <= j < lines.len() ==> valid_utf8(#[trigger] lines[j]),
        valid_lines_decoded(lines),
    ensures
        valid_utf8(reassemble(lines)),
        joined_lines(lines) == decode_utf8(reassemble(lines)),
    decreases lines.len(),
{
    if lines.len() > 0 {
        let prev = lines.drop_last();
        assert forall|j: int| 0 <= j < prev.len() implies valid_utf8(#[trigger] prev[j]) by {
            assert(prev[j] == lines[j]);
        }
        assert forall|j: int| 0 <= j < prev.len() && valid_utf8(#[trigger] prev[j]) implies lossy_text(prev[j])
            == decode_utf8(prev[j]) by {
            assert(prev[j] == lines[j]);
        }
        lemma_joined_decodes(prev);
        let last = lines[lines.len() - 1];
        assert(valid_utf8(last));
        lemma_decode_concat(reassemble(prev), last);
        lemma_decode_newline();
        lemma_decode_concat(reassemble(prev) + last, seq![NEWLINE]);
    }
}

/// `s` with each `\r` that stands just before a `\n` removed.
pub open spec fn crlf_to_lf(s: Seq<u8>) -> Seq<u8>
    decreases s.len(),
{
    if s.len() == 0 {
        Seq::empty()
    } else if s.last() == NEWLINE && s.len() >= 2 && s[s.len() - 2] == CARRIAGE_RETURN {
        crlf_to_lf(s.drop_last().drop_last()).push(NEWLINE)
    } else {
        crlf_to_lf(s.drop_last()).push(s.last())
    }
}

/// The lines, each followed by `\n`, and then the rest, are the input with
/// each `\r\n` turned into `\n`.
pub proof fn lemma_split_drops_crlf(s: Seq<u8>)
    ensures
        reassemble(split_lines(s).0) + split_lines(s).1 == crlf_to_lf(s),
    decreases s.len(),
{
    if s.len() == 0 {
        assert(reassemble(Seq::<Seq<u8>>::empty()) + Seq::<u8>::empty() =~= Seq::<u8>::empty());
    } else {
        let p = s.drop_last();
        let prev = split_lines(p);
        lemma_split_drops_crlf(p);
        assert(prev.1.len() > 0 ==> p.len() > 0 && prev.1.last() == p.last());
        assert(prev.1.len() == 0 ==> p.len() == 0 || p.last() == NEWLINE);
        if s.last() == NEWLINE {
            assert(split_lines(s).0.drop_last() =~= prev.0);
            if prev.1.len() > 0 && prev.1.last() == CARRIAGE_RETURN {
                let pp = p.drop_last();
                lemma_split_drops_crlf(pp);
                assert(s[s.len() - 2] == CARRIAGE_RETURN);
                assert(s.drop_last().drop_last() =~= pp);
                assert(prev == (split_lines(pp).0, split_lines(pp).1.push(CARRIAGE_RETURN)));
                assert(strip_cr(prev.1) =~= split_lines(pp).1);
                assert(reassemble(split_lines(s).0) + split_lines(s).1 =~= reassemble(split_lines(pp).0)
                    + split_lines(pp).1 + seq![NEWLINE]);
            } else {
                assert(strip_cr(prev.1) == prev.1);
                assert(!(s.len() >= 2 && s[s.len() - 2] == CARRIAGE_RETURN));
                assert(reassemble(split_lines(s).0) + split_lines(s).1 =~= reassemble(prev.0) + prev.1 + seq![
                    NEWLINE,
                ]);
            }
        } else {
            assert(reassemble(split_lines(s).0) + split_lines(s).1 =~= (reassemble(prev.0) + prev.1).push(
                s.last(),
            ));
        }
    }
}

/// What is gathered of output that is valid UTF-8 is its text with each
/// `\r\n` turned into `\n`: the decoded complete lines, each with its `\n`,
/// followed by the decoded rest.
pub proof fn lemma_gathered_text_is_decoded(s: Seq<u8>)
    requires
        valid_utf8(s),
        valid_lines_decoded(split_lines(s).0),
    ensures
        valid_utf8(crlf_to_lf(s)),
        joined_lines(split_lines(s).0) + decode_utf8(split_lines(s).1) == decode_utf8(crlf_to_lf(s)),
{
    lemma_valid_output_lines(s);
    lemma_joined_decodes(split_lines(s).0);
    lemma_split_drops_crlf(s);
    lemma_decode_concat(reassemble(split_lines(s).0), split_lines(s).1);
}

/// Everything a stream's reader sees: the text of each complete line as it
/// arrives, and the whole output gathered so far.
pub struct OutputCapture {
    splitter: LineSplitter,
    collected: String,
    received: Ghost<Seq<u8>>,
}

impl OutputCapture {
    /// The splitter's pending bytes and the gathered text follow from the
    /// bytes received.
    #[verifier::type_invariant]
    spec fn consistent(self) -> bool {
        &&& self.splitter@ == split_lines(self.received@).1
        &&& self.collected@ == joined_lines(split_lines(self.received@).0)
        &&& valid_lines_decoded(split_lines(self.received@).0)
    }

    /// All bytes fed so far.
    pub closed spec fn received(self) -> Seq<u8> {
        self.received@
    }

    /// The text gathered so far.
    pub closed spec fn collected(self) -> Seq<char> {
        self.collected@
    }

    /// A capture that has seen no bytes.
    pub fn new() -> (res: OutputCapture)
        ensures
            res.received() == Seq::<u8>::empty(),
            res.collected() == Seq::<char>::empty(),
    {
        OutputCapture { splitter: LineSplitter::new(), collected: String::new(), received: Ghost(Seq::empty()) }
    }

    /// Feeds `chunk`: returns the text of each line that it completes, in
    /// order, and adds each one with a `\n` to the gathered text.
    pub fn feed(&mut self, chunk: &[u8]) -> (texts: Vec<String>)
        ensures
            final(self).received() == old(self).received() + chunk@,
            final(self).collected() == joined_lines(split_lines(final(self).received()).0),
            texts@.len() + split_lines(old(self).received()).0.len() == split_lines(
                final(self).received(),
            ).0.len(),
            forall|i: int|
                0 <= i < texts@.len() ==> #[trigger] texts@[i]@ == lossy_text(
                    split_lines(final(self).received()).0[split_lines(old(self).received()).0.len() + i],
                ),
            forall|i: int|
                0 <= i < texts@.len() && valid_utf8(
                    split_lines(final(self).received()).0[split_lines(old(self).received()).0.len() + i],
                ) ==> #[trigger] texts@[i]@ == decode_utf8(
                    split_lines(final(self).received()).0[split_lines(old(self).received()).0.len() + i],
                ),
            valid_lines_decoded(split_lines(final(self).received()).0),
    {
        proof {
            use_type_invariant(&*self);
        }
        let mut cur = OutputCapture::new();
        std::mem::swap(&mut cur, self);
        let OutputCapture { mut splitter, mut collected, received } = cur;
        let ghost before = split_lines(received@).0;
        let ghost all = received@ + chunk@;
        proof {
            lemma_split_concat(received@, chunk@);
        }
        let lines = splitter.feed(chunk);
        let ghost fresh = split_lines(split_lines(received@).1 + chunk@).0;
        assert(split_lines(all).0 == before + fresh);
        let mut texts: Vec<String> = Vec::new();
        let mut k: usize = 0;
        while k < lines.len()
            invariant
                k <= lines.len(),
                lines@.map_values(|l: Vec<u8>| l@) == fresh,
                texts@.len() == k,
                forall|i: int| 0 <= i < k ==> #[trigger] texts@[i]@ == lossy_text(fresh[i]),
                forall|i: int|
                    0 <= i < k && valid_utf8(fresh[i]) ==> #[trigger] texts@[i]@ == decode_utf8(fresh[i]),
                collected@ == joined_lines(before + fresh.take(k as int)),
            decreases lines.len() - k,
        {
            let text = decode_lossy(lines[k].as_slice());
            proof {
                assert(fresh[k as int] == lines@[k as int]@);
                assert((before + fresh.take(k + 1)).drop_last() =~= before + fresh.take(k as int));
                assert((before + fresh.take(k + 1)).last() == fresh[k as int]);
            }
            collected.append(text.as_str());
            collected.append("\n");
            proof {
                reveal_strlit("\n");
                assert(collected@ =~= joined_lines(before + fresh.take(k + 1)));
            }
            texts.push(text);
            k += 1;
        }
        proof {
            assert(fresh.take(lines@.len() as int) =~= fresh);
            assert forall|j: int|
                0 <= j < split_lines(all).0.len() && valid_utf8(
                    #[trigger] split_lines(all).0[j],
                ) implies lossy_text(split_lines(all).0[j]) == decode_utf8(split_lines(all).0[j]) by {
                if j >= before.len() {
                    assert(split_lines(all).0[j] == fresh[j - before.len()]);
                    assert(texts@[j - before.len()]@ == lossy_text(fresh[j - before.len()]));
                } else {
                    assert(split_lines(all).0[j] == before[j]);
                }
            }
        }
        *self = OutputCapture { splitter, collected, received: Ghost(all) };
        texts
    }

    /// Ends the stream: the text of the bytes after the last `\n`, if there
    /// are any, and the whole gathered output, which ends with that text.
    pub fn finish(self) -> (res: (Option<String>, String))
        ensures
            ({
                let rest = split_lines(self.received()).1;
                let gathered = joined_lines(split_lines(self.received()).0);
                &&& rest.len() == 0 ==> res.0 is None && res.1@ == gathered
                &&& rest.len() > 0 ==> (res.0 matches Some(t) && t@ == lossy_text(rest))
                &&& rest.len() > 0 ==> res.1@ == gathered + lossy_text(rest)
                &&& rest.len() > 0 && valid_utf8(rest) ==> (res.0 matches Some(t) && t@ == decode_utf8(rest))
                &&& rest.len() > 0 && valid_utf8(rest) ==> res.1@ == gathered + decode_utf8(rest)
                &&& valid_lines_decoded(split_lines(self.received()).0)
            }),
    {
        proof {
            use_type_invariant(&self);
        }
        let OutputCapture { splitter, mut collected, received } = self;
        match splitter.finish() {
            None => (None, collected),
            Some(rest) => {
                let text = decode_lossy(rest.as_slice());
                collected.append(text.as_str());
                (Some(text), collected)
            }
        }
    }
}

} // verus!
