//! The streaming controller: text cut into small chunks, a producer that
//! synthesizes them in order into a bounded queue, a consumer that plays
//! them, and a cooperative interruption that halts both at chunk
//! boundaries. The threads live with the caller; every decision is a
//! transition of `StreamingTts`.

use vstd::prelude::*;
use crate::chunker::join_space;
use crate::error::TtsError;
use crate::presets::{contains_text, lower_of, lowercase, text_contains};
use crate::text::{
    append_chars, chars_of, string_views, strings_of, trim, trim_chars, views,
    ws_tokens, ws_tokens_of,
};

verus! {

/// Words after which a streaming chunk is closed in any case.
pub const MAX_CHUNK_SIZE: usize = 50;

/// Words carried over from a chunk closed at a clause boundary.
pub const CHUNK_OVERLAP: usize = 5;

/// Words a chunk needs before a clause boundary may close it.
pub const CLAUSE_MIN_WORDS: usize = 12;

/// Synthesized chunks that may wait for playback.
pub const QUEUE_CAPACITY: usize = 3;

pub open spec fn is_stream_break(c: char) -> bool {
    c == '.' || c == '!' || c == '?' || c == '\n'
}

/// The fragments of `s` between sentence breaks; the state is (fragments so
/// far, open fragment).
pub open spec fn fragment_state(s: Seq<char>) -> (Seq<Seq<char>>, Seq<char>)
    decreases s.len(),
{
    if s.len() == 0 {
        (Seq::empty(), Seq::empty())
    } else {
        let st = fragment_state(s.drop_last());
        if is_stream_break(s.last()) {
            (st.0.push(st.1), Seq::empty())
        } else {
            (st.0, st.1.push(s.last()))
        }
    }
}

pub open spec fn fragments(s: Seq<char>) -> Seq<Seq<char>> {
    let st = fragment_state(s);
    st.0.push(st.1)
}

/// Words joined by single spaces.
pub open spec fn join_words(ws: Seq<Seq<char>>) -> Seq<char>
    decreases ws.len(),
{
    if ws.len() == 0 {
        Seq::empty()
    } else {
        join_space(join_words(ws.drop_last()), ws.last())
    }
}

/// A word that ends a clause.
pub open spec fn ends_clause(w: Seq<char>) -> bool {
    w.len() > 0 && (w.last() == ',' || w.last() == ';' || w.last() == ':')
}

/// The chunker's state: chunks so far, the words of the open chunk, and the
/// word count that decides when it closes.
pub struct ChunkState {
    pub chunks: Seq<Seq<char>>,
    pub cur: Seq<Seq<char>>,
    pub count: nat,
}

pub open spec fn initial_chunk_state() -> ChunkState {
    ChunkState { chunks: Seq::empty(), cur: Seq::empty(), count: 0 }
}

/// The last `CHUNK_OVERLAP` words (or all of them, if fewer).
pub open spec fn overlap_words(ws: Seq<Seq<char>>) -> Seq<Seq<char>> {
    if ws.len() > CHUNK_OVERLAP {
        ws.subrange(ws.len() - CHUNK_OVERLAP, ws.len() as int)
    } else {
        ws
    }
}

/// One word added to the open chunk. At a clause boundary after enough words
/// the chunk closes and its last words open the next one; at
/// `MAX_CHUNK_SIZE` words it closes outright.
pub open spec fn word_step(st: ChunkState, w: Seq<char>) -> ChunkState {
    let cur = st.cur.push(w);
    let n = st.count + 1;
    if n >= CLAUSE_MIN_WORDS && ends_clause(w) {
        ChunkState {
            chunks: st.chunks.push(join_words(cur)),
            cur: overlap_words(cur),
            count: CHUNK_OVERLAP as nat,
        }
    } else if n >= MAX_CHUNK_SIZE {
        ChunkState { chunks: st.chunks.push(join_words(cur)), cur: Seq::empty(), count: 0 }
    } else {
        ChunkState { chunks: st.chunks, cur, count: n }
    }
}

pub open spec fn words_fold(st: ChunkState, ws: Seq<Seq<char>>) -> ChunkState
    decreases ws.len(),
{
    if ws.len() == 0 {
        st
    } else {
        word_step(words_fold(st, ws.drop_last()), ws.last())
    }
}

/// The end of a sentence closes the open chunk, marked with a final ` .`.
pub open spec fn sentence_end(st: ChunkState) -> ChunkState {
    if st.cur.len() > 0 {
        ChunkState {
            chunks: st.chunks.push(join_words(st.cur) + seq![' ', '.']),
            cur: Seq::empty(),
            count: 0,
        }
    } else {
        st
    }
}

pub open spec fn fragments_fold(fs: Seq<Seq<char>>) -> ChunkState
    decreases fs.len(),
{
    if fs.len() == 0 {
        initial_chunk_state()
    } else {
        let st = fragments_fold(fs.drop_last());
        let f = trim(fs.last());
        if f.len() == 0 {
            st
        } else {
            sentence_end(words_fold(st, ws_tokens(f)))
        }
    }
}

/// The streaming chunks of `text`.
pub open spec fn stream_chunks_spec(text: Seq<char>) -> Seq<Seq<char>> {
    let st = fragments_fold(fragments(text));
    if st.cur.len() > 0 {
        st.chunks.push(join_words(st.cur))
    } else {
        st.chunks
    }
}

fn fragments_of(cs: &Vec<char>) -> (r: Vec<Vec<char>>)
    ensures
        views(r@) == fragments(cs@),
{
    let mut done: Vec<Vec<char>> = Vec::new();
    let mut cur: Vec<char> = Vec::new();
    let mut i: usize = 0;
    while i < cs.len()
        invariant
            i <= cs.len(),
            (views(done@), cur@) == fragment_state(cs@.subrange(0, i as int)),
        decreases cs.len() - i,
    {
        let ghost sub = cs@.subrange(0, i + 1);
        assert(sub.drop_last() =~= cs@.subrange(0, i as int));
        assert(sub.last() == cs@[i as int]);
        let c = cs[i];
        if c == '.' || c == '!' || c == '?' || c == '\n' {
            let ghost before = views(done@);
            let part = cur;
            done.push(part);
            assert(views(done@) =~= before.push(part@));
            cur = Vec::new();
        } else {
            cur.push(c);
        }
        i = i + 1;
    }
    assert(cs@.subrange(0, cs.len() as int) =~= cs@);
    let ghost before = views(done@);
    let last = cur;
    done.push(last);
    assert(views(done@) =~= before.push(last@));
    done
}

fn join_words_of(ws: &Vec<Vec<char>>) -> (r: Vec<char>)
    ensures
        r@ == join_words(views(ws@)),
{
    let mut out: Vec<char> = Vec::new();
    let mut i: usize = 0;
    while i < ws.len()
        invariant
            i <= ws.len(),
            out@ == join_words(views(ws@).subrange(0, i as int)),
        decreases ws.len() - i,
    {
        let ghost sub = views(ws@).subrange(0, i + 1);
        assert(sub.drop_last() =~= views(ws@).subrange(0, i as int));
        assert(sub.last() == ws@[i as int]@);
        if out.len() > 0 {
            out.push(' ');
        }
        append_chars(&mut out, &ws[i]);
        i = i + 1;
    }
    assert(views(ws@).subrange(0, ws.len() as int) =~= views(ws@));
    out
}

fn ends_clause_of(w: &Vec<char>) -> (r: bool)
    ensures
        r == ends_clause(w@),
{
    w.len() > 0 && (w[w.len() - 1] == ',' || w[w.len() - 1] == ';' || w[w.len() - 1] == ':')
}

fn tail_words(ws: &Vec<Vec<char>>) -> (r: Vec<Vec<char>>)
    ensures
        views(r@) == overlap_words(views(ws@)),
{
    let from: usize = if ws.len() > CHUNK_OVERLAP {
        ws.len() - CHUNK_OVERLAP
    } else {
        0
    };
    let mut out: Vec<Vec<char>> = Vec::new();
    let mut i: usize = from;
    while i < ws.len()
        invariant
            from <= i <= ws.len(),
            views(out@) == views(ws@).subrange(from as int, i as int),
        decreases ws.len() - i,
    {
        let ghost before = views(out@);
        out.push(ws[i].clone());
        assert(views(out@) =~= before.push(ws@[i as int]@));
        i = i + 1;
        assert(views(out@) =~= views(ws@).subrange(from as int, i as int));
    }
    assert(views(ws@).subrange(0, ws.len() as int) =~= views(ws@));
    out
}

/// Splits `text` into small chunks for streaming: sentences (broken at
/// `.`, `!`, `?` and line breaks) are cut into word groups, closed after
/// `MAX_CHUNK_SIZE` words, or at a clause boundary (a word ending in `,`,
/// `;` or `:`) once `CLAUSE_MIN_WORDS` words are in, in which case the last
/// `CHUNK_OVERLAP` words open the next chunk; each sentence's last group
/// ends with ` .`.
pub fn split_into_chunks(text: &str) -> (r: Vec<String>)
    ensures
        string_views(r@) == stream_chunks_spec(text@),
{
    let cs = chars_of(text);
    let frags = fragments_of(&cs);
    let mut chunks: Vec<Vec<char>> = Vec::new();
    let mut cur: Vec<Vec<char>> = Vec::new();
    let mut count: usize = 0;
    let mut i: usize = 0;
    assert(views(chunks@) =~= Seq::<Seq<char>>::empty());
    assert(views(cur@) =~= Seq::<Seq<char>>::empty());
    while i < frags.len()
        invariant
            i <= frags.len(),
            count <= MAX_CHUNK_SIZE,
            fragments_fold(views(frags@).subrange(0, i as int)) == (ChunkState {
                chunks: views(chunks@),
                cur: views(cur@),
                count: count as nat,
            }),
        decreases frags.len() - i,
    {
        let ghost fsub = views(frags@).subrange(0, i + 1);
        assert(fsub.drop_last() =~= views(frags@).subrange(0, i as int));
        assert(fsub.last() == frags@[i as int]@);
        let f = trim_chars(&frags[i]);
        if f.len() > 0 {
            let ws = ws_tokens_of(&f);
            let ghost st0 = ChunkState {
                chunks: views(chunks@),
                cur: views(cur@),
                count: count as nat,
            };
            let mut j: usize = 0;
            while j < ws.len()
                invariant
                    j <= ws.len(),
                    count <= MAX_CHUNK_SIZE,
                    words_fold(st0, views(ws@).subrange(0, j as int)) == (ChunkState {
                        chunks: views(chunks@),
                        cur: views(cur@),
                        count: count as nat,
                    }),
                decreases ws.len() - j,
            {
                let ghost wsub = views(ws@).subrange(0, j + 1);
                assert(wsub.drop_last() =~= views(ws@).subrange(0, j as int));
                assert(wsub.last() == ws@[j as int]@);
                let w = ws[j].clone();
                let clause = ends_clause_of(&w);
                let ghost cv = views(cur@);
                cur.push(w);
                assert(views(cur@) =~= cv.push(ws@[j as int]@));
                count = count + 1;
                if count >= CLAUSE_MIN_WORDS && clause {
                    let chunk = join_words_of(&cur);
                    let ghost before = views(chunks@);
                    chunks.push(chunk);
                    assert(views(chunks@) =~= before.push(chunk@));
                    cur = tail_words(&cur);
                    count = CHUNK_OVERLAP;
                } else if count >= MAX_CHUNK_SIZE {
                    let chunk = join_words_of(&cur);
                    let ghost before = views(chunks@);
                    chunks.push(chunk);
                    assert(views(chunks@) =~= before.push(chunk@));
                    cur = Vec::new();
                    assert(views(cur@) =~= Seq::<Seq<char>>::empty());
                    count = 0;
                }
                j = j + 1;
            }
            assert(views(ws@).subrange(0, ws.len() as int) =~= views(ws@));
            if cur.len() > 0 {
                let mut chunk = join_words_of(&cur);
                chunk.push(' ');
                chunk.push('.');
                let ghost before = views(chunks@);
                let ghost jw = join_words(views(cur@));
                assert(chunk@ =~= jw + seq![' ', '.']);
                chunks.push(chunk);
                assert(views(chunks@) =~= before.push(jw + seq![' ', '.']));
                cur = Vec::new();
                assert(views(cur@) =~= Seq::<Seq<char>>::empty());
                count = 0;
            }
        }
        i = i + 1;
    }
    assert(views(frags@).subrange(0, frags.len() as int) =~= views(frags@));
    if cur.len() > 0 {
        let chunk = join_words_of(&cur);
        let ghost before = views(chunks@);
        chunks.push(chunk);
        assert(views(chunks@) =~= before.push(chunk@));
    }
    strings_of(&chunks)
}

/// A listener phrase that interrupts the stream.
pub open spec fn interruption_phrase(k: int) -> Seq<char> {
    if k == 0 {
        "aye"@
    } else if k == 1 {
        "stop"@
    } else if k == 2 {
        "quiet"@
    } else if k == 3 {
        "hush"@
    } else if k == 4 {
        "enough"@
    } else if k == 5 {
        "pause"@
    } else if k == 6 {
        "it's raining"@
    } else {
        "it's raining dude"@
    }
}

pub const INTERRUPTION_PHRASE_COUNT: usize = 8;

fn interruption_phrase_exec(k: usize) -> (r: &'static str)
    ensures
        r@ == interruption_phrase(k as int),
{
    if k == 0 {
        "aye"
    } else if k == 1 {
        "stop"
    } else if k == 2 {
        "quiet"
    } else if k == 3 {
        "hush"
    } else if k == 4 {
        "enough"
    } else if k == 5 {
        "pause"
    } else if k == 6 {
        "it's raining"
    } else {
        "it's raining dude"
    }
}

/// The line, already lower-cased, holds one of the interruption phrases.
pub open spec fn holds_interruption(lowered: Seq<char>) -> bool {
    exists|k: int|
        0 <= k < INTERRUPTION_PHRASE_COUNT && #[trigger] contains_text(
            lowered,
            interruption_phrase(k),
        )
}

/// Whether a lower-cased input line holds an interruption phrase.
pub fn is_interruption(lowered: &str) -> (r: bool)
    ensures
        r == holds_interruption(lowered@),
{
    let mut k: usize = 0;
    while k < INTERRUPTION_PHRASE_COUNT
        invariant
            k <= INTERRUPTION_PHRASE_COUNT,
            forall|j: int| 0 <= j < k ==> !contains_text(lowered@, #[trigger] interruption_phrase(j)),
        decreases INTERRUPTION_PHRASE_COUNT - k,
    {
        if text_contains(lowered, interruption_phrase_exec(k)) {
            return true;
        }
        k = k + 1;
    }
    false
}

/// Whether an input line, in any case, asks to interrupt the stream.
pub fn heard_interruption(line: &str) -> (r: bool)
    ensures
        r == holds_interruption(lower_of(line@)),
{
    let lowered = lowercase(line);
    is_interruption(lowered.as_str())
}

/// What the controller knows: the stream's chunks, how far the producer
/// has got, the queue of synthesized audio, and the two flags.
pub struct StreamModel {
    pub voice: Seq<char>,
    pub speed_milli: u32,
    pub gain_percent: u32,
    pub volume_percent: u32,
    pub speaking: bool,
    pub interrupted: bool,
    pub chunks: Seq<Seq<char>>,
    pub next: nat,
    pub in_flight: bool,
    pub queue: Seq<Seq<i32>>,
}

/// The phase of a stream.
#[derive(Debug, Clone, Copy, PartialEq, Eq, Structural)]
pub enum StreamState {
    /// No stream in progress.
    Idle,
    /// Chunks are being synthesized and played.
    Producing,
    /// Every chunk is synthesized; what is queued is being played.
    Draining,
    /// The stream was interrupted; nothing more is produced or played.
    Interrupted,
}

/// What the producer is to do next.
#[derive(Debug, Clone)]
pub enum ProducerStep {
    /// Synthesize this chunk and `deliver` its audio (or report
    /// `chunk_failed`).
    Synthesize(String),
    /// The queue is full: ask again later.
    Wait,
    /// Nothing more to produce.
    Finished,
}

/// What the consumer is to do next.
#[derive(Debug, Clone)]
pub enum PlaybackStep {
    /// Play these samples to the end.
    Play(Vec<i32>),
    /// Nothing is queued yet: ask again later.
    Wait,
    /// The stream is over.
    Stop,
}

/// Well-formed: the producer's position is within the chunks, the queue
/// within its capacity, and a chunk in synthesis has room waiting for it.
pub open spec fn stream_wf(m: StreamModel) -> bool {
    &&& m.next <= m.chunks.len()
    &&& m.queue.len() <= QUEUE_CAPACITY
    &&& m.in_flight ==> m.queue.len() < QUEUE_CAPACITY && m.next > 0
    &&& m.interrupted ==> !m.speaking && m.queue.len() == 0
}

pub open spec fn state_of(m: StreamModel) -> StreamState {
    if m.interrupted {
        StreamState::Interrupted
    } else if !m.speaking {
        StreamState::Idle
    } else if m.next == m.chunks.len() && !m.in_flight {
        StreamState::Draining
    } else {
        StreamState::Producing
    }
}

/// Starting a stream on `text`: refused while one is in progress, otherwise
/// the text is cut into chunks and production starts from the first.
pub open spec fn begin_spec(m: StreamModel, text: Seq<char>) -> StreamModel {
    if m.speaking || m.in_flight {
        m
    } else {
        StreamModel {
            speaking: true,
            interrupted: false,
            chunks: stream_chunks_spec(text),
            next: 0,
            in_flight: false,
            queue: Seq::empty(),
            ..m
        }
    }
}

/// The interruption: the flag is raised, the queue is emptied and the stream
/// stops speaking.
pub open spec fn interrupt_spec(m: StreamModel) -> StreamModel {
    StreamModel { interrupted: true, speaking: false, queue: Seq::empty(), ..m }
}

pub open spec fn producer_may_synthesize(m: StreamModel) -> bool {
    m.speaking && !m.interrupted && !m.in_flight && m.next < m.chunks.len() && m.queue.len()
        < QUEUE_CAPACITY
}

/// The producer's next step: the next chunk, when the stream is live, no
/// chunk is in synthesis and the queue has room.
pub open spec fn next_chunk_spec(m: StreamModel) -> StreamModel {
    if producer_may_synthesize(m) {
        StreamModel { next: m.next + 1, in_flight: true, ..m }
    } else {
        m
    }
}

pub open spec fn producer_finished(m: StreamModel) -> bool {
    !m.speaking || m.interrupted || (!m.in_flight && m.next >= m.chunks.len())
}

/// Audio of the chunk in synthesis: queued if the stream is still live,
/// dropped otherwise.
pub open spec fn deliver_spec(m: StreamModel, audio: Seq<i32>) -> StreamModel {
    if m.speaking && !m.interrupted && m.in_flight {
        StreamModel { in_flight: false, queue: m.queue.push(audio), ..m }
    } else {
        StreamModel { in_flight: false, ..m }
    }
}

/// A chunk whose synthesis failed is skipped.
pub open spec fn chunk_failed_spec(m: StreamModel) -> StreamModel {
    StreamModel { in_flight: false, ..m }
}

pub open spec fn playback_stops(m: StreamModel) -> bool {
    !m.speaking || (m.queue.len() == 0 && !m.in_flight && m.next >= m.chunks.len())
}

/// The consumer's next step: the oldest queued audio, or the end of the
/// stream once everything was produced and played.
pub open spec fn next_playback_spec(m: StreamModel) -> StreamModel {
    if !m.speaking {
        m
    } else if m.queue.len() > 0 {
        StreamModel { queue: m.queue.drop_first(), ..m }
    } else if !m.in_flight && m.next >= m.chunks.len() {
        StreamModel { speaking: false, ..m }
    } else {
        m
    }
}

/// The streaming controller.
pub struct StreamingTts {
    voice: String,
    speed_milli: u32,
    gain_percent: u32,
    volume_percent: u32,
    speaking: bool,
    interrupted: bool,
    chunks: Vec<String>,
    next: usize,
    in_flight: bool,
    queue: Vec<Vec<i32>>,
}

pub open spec fn audio_views(q: Seq<Vec<i32>>) -> Seq<Seq<i32>> {
    q.map_values(|a: Vec<i32>| a@)
}

impl View for StreamingTts {
    type V = StreamModel;

    closed spec fn view(&self) -> StreamModel {
        StreamModel {
            voice: self.voice@,
            speed_milli: self.speed_milli,
            gain_percent: self.gain_percent,
            volume_percent: self.volume_percent,
            speaking: self.speaking,
            interrupted: self.interrupted,
            chunks: string_views(self.chunks@),
            next: self.next as nat,
            in_flight: self.in_flight,
            queue: audio_views(self.queue@),
        }
    }
}

impl StreamingTts {
    /// An idle controller with the default voice, speed 0.85, gain 1.5 and
    /// volume 0.8.
    pub fn new() -> (r: Self)
        ensures
            r@.voice == crate::voice::DEFAULT_VOICE@,
            r@.speed_milli == 850,
            r@.gain_percent == 150,
            r@.volume_percent == 80,
            !r@.speaking,
            !r@.interrupted,
            !r@.in_flight,
            r@.chunks.len() == 0,
            r@.queue.len() == 0,
            stream_wf(r@),
    {
        let r = StreamingTts {
            voice: String::from_str(crate::voice::DEFAULT_VOICE),
            speed_milli: 850,
            gain_percent: 150,
            volume_percent: 80,
            speaking: false,
            interrupted: false,
            chunks: Vec::new(),
            next: 0,
            in_flight: false,
            queue: Vec::new(),
        };
        assert(string_views(r.chunks@) =~= Seq::<Seq<char>>::empty());
        assert(audio_views(r.queue@) =~= Seq::<Seq<i32>>::empty());
        r
    }

    /// Sets the voice of the chunks synthesized from now on.
    pub fn set_voice(&mut self, voice: &str)
        ensures
            final(self)@ == (StreamModel { voice: voice@, ..old(self)@ }),
    {
        self.voice = String::from_str(voice);
    }

    /// Sets speed (thousandths), gain and volume (percent).
    pub fn set_parameters(&mut self, speed_milli: u32, gain_percent: u32, volume_percent: u32)
        ensures
            final(self)@ == (StreamModel { speed_milli, gain_percent, volume_percent, ..old(self)@ }),
    {
        self.speed_milli = speed_milli;
        self.gain_percent = gain_percent;
        self.volume_percent = volume_percent;
    }

    pub fn voice(&self) -> (r: &String)
        ensures
            r@ == self@.voice,
    {
        &self.voice
    }

    pub fn speed_milli(&self) -> (r: u32)
        ensures
            r == self@.speed_milli,
    {
        self.speed_milli
    }

    pub fn gain_percent(&self) -> (r: u32)
        ensures
            r == self@.gain_percent,
    {
        self.gain_percent
    }

    pub fn volume_percent(&self) -> (r: u32)
        ensures
            r == self@.volume_percent,
    {
        self.volume_percent
    }

    /// Whether a stream is in progress.
    pub fn is_speaking(&self) -> (r: bool)
        ensures
            r == self@.speaking,
    {
        self.speaking
    }

    /// The phase of the stream.
    pub fn state(&self) -> (r: StreamState)
        ensures
            r == state_of(self@),
    {
        if self.interrupted {
            StreamState::Interrupted
        } else if !self.speaking {
            StreamState::Idle
        } else if self.next == self.chunks.len() && !self.in_flight {
            StreamState::Draining
        } else {
            StreamState::Producing
        }
    }

    /// Starts a stream on `text`; fails with `AlreadySpeaking` while one is
    /// in progress, and also while a chunk of an interrupted stream is still
    /// being synthesized (until it is delivered or reported failed), even
    /// though `is_speaking` is then false. Returns the number of chunks.
    pub fn speak_stream(&mut self, text: &str) -> (r: Result<usize, TtsError>)
        requires
            stream_wf(old(self)@),
        ensures
            final(self)@ == begin_spec(old(self)@, text@),
            stream_wf(final(self)@),
            old(self)@.speaking || old(self)@.in_flight ==> r matches Err(TtsError::AlreadySpeaking),
            !(old(self)@.speaking || old(self)@.in_flight) ==> (r matches Ok(n) && n == final(self)@.chunks.len()),
    {
        if self.speaking || self.in_flight {
            return Err(TtsError::AlreadySpeaking);
        }
        let chunks = split_into_chunks(text);
        let n = chunks.len();
        self.chunks = chunks;
        self.speaking = true;
        self.interrupted = false;
        self.next = 0;
        self.in_flight = false;
        self.queue = Vec::new();
        assert(audio_views(self.queue@) =~= Seq::<Seq<i32>>::empty());
        Ok(n)
    }

    /// Interrupts the stream: nothing more is produced or played, and what
    /// was queued is discarded.
    pub fn interrupt(&mut self)
        requires
            stream_wf(old(self)@),
        ensures
            final(self)@ == interrupt_spec(old(self)@),
            stream_wf(final(self)@),
    {
        self.interrupted = true;
        self.speaking = false;
        self.queue = Vec::new();
        assert(audio_views(self.queue@) =~= Seq::<Seq<i32>>::empty());
    }

    /// The producer's next step.
    pub fn next_chunk(&mut self) -> (r: ProducerStep)
        requires
            stream_wf(old(self)@),
        ensures
            final(self)@ == next_chunk_spec(old(self)@),
            stream_wf(final(self)@),
            producer_may_synthesize(old(self)@) ==> (r matches ProducerStep::Synthesize(c)
                && c@ == old(self)@.chunks[old(self)@.next as int]),
            !producer_may_synthesize(old(self)@) && producer_finished(old(self)@) ==> r matches ProducerStep::Finished,
            !producer_may_synthesize(old(self)@) && !producer_finished(old(self)@) ==> r matches ProducerStep::Wait,
    {
        if self.speaking && !self.interrupted && !self.in_flight && self.next < self.chunks.len()
            && self.queue.len() < QUEUE_CAPACITY {
            let c = self.chunks[self.next].clone();
            self.next = self.next + 1;
            self.in_flight = true;
            ProducerStep::Synthesize(c)
        } else if !self.speaking || self.interrupted || (!self.in_flight && self.next
            >= self.chunks.len()) {
            ProducerStep::Finished
        } else {
            ProducerStep::Wait
        }
    }

    /// Hands over the audio of the chunk in synthesis. Returns whether it was
    /// queued: after an interruption it is dropped.
    pub fn deliver(&mut self, audio: Vec<i32>) -> (r: bool)
        requires
            stream_wf(old(self)@),
        ensures
            final(self)@ == deliver_spec(old(self)@, audio@),
            stream_wf(final(self)@),
            r == (old(self)@.speaking && !old(self)@.interrupted && old(self)@.in_flight),
    {
        let ghost a = audio@;
        if self.speaking && !self.interrupted && self.in_flight {
            let ghost q = audio_views(self.queue@);
            self.queue.push(audio);
            assert(audio_views(self.queue@) =~= q.push(a));
            self.in_flight = false;
            true
        } else {
            self.in_flight = false;
            false
        }
    }

    /// Reports that the chunk in synthesis failed; it is skipped.
    pub fn chunk_failed(&mut self)
        requires
            stream_wf(old(self)@),
        ensures
            final(self)@ == chunk_failed_spec(old(self)@),
            stream_wf(final(self)@),
    {
        self.in_flight = false;
    }

    /// The consumer's next step.
    pub fn next_playback(&mut self) -> (r: PlaybackStep)
        requires
            stream_wf(old(self)@),
        ensures
            final(self)@ == next_playback_spec(old(self)@),
            stream_wf(final(self)@),
            old(self)@.speaking && old(self)@.queue.len() > 0 ==> (r matches PlaybackStep::Play(a)
                && a@ == old(self)@.queue[0]),
            playback_stops(old(self)@) ==> r matches PlaybackStep::Stop,
            !playback_stops(old(self)@) && old(self)@.queue.len() == 0 ==> r matches PlaybackStep::Wait,
    {
        if !self.speaking {
            PlaybackStep::Stop
        } else if self.queue.len() > 0 {
            let ghost q = audio_views(self.queue@);
            let a = self.queue.remove(0);
            assert(audio_views(self.queue@) =~= q.drop_first());
            PlaybackStep::Play(a)
        } else if !self.in_flight && self.next >= self.chunks.len() {
            self.speaking = false;
            PlaybackStep::Stop
        } else {
            PlaybackStep::Wait
        }
    }
}

/// An interruption halts the stream at once: it stops speaking, its queue
/// is empty, the producer is handed no further chunk, audio still delivered
/// is not queued, and playback stops.
pub proof fn lemma_interrupt_halts(m: StreamModel, audio: Seq<i32>)
    requires
        stream_wf(m),
    ensures
        !interrupt_spec(m).speaking,
        interrupt_spec(m).queue.len() == 0,
        state_of(interrupt_spec(m)) == StreamState::Interrupted,
        !producer_may_synthesize(interrupt_spec(m)),
        producer_finished(interrupt_spec(m)),
        next_chunk_spec(interrupt_spec(m)) == interrupt_spec(m),
        deliver_spec(interrupt_spec(m), audio).queue.len() == 0,
        playback_stops(interrupt_spec(m)),
        next_playback_spec(interrupt_spec(m)) == interrupt_spec(m),
{
}

/// After an interruption no step of the producer or the consumer queues
/// audio, hands out a chunk, or resumes speaking, until a new stream begins.
pub proof fn lemma_interrupted_stays_halted(m: StreamModel, audio: Seq<i32>)
    requires
        stream_wf(m),
        m.interrupted,
    ensures
        next_chunk_spec(m) == m,
        deliver_spec(m, audio).interrupted,
        deliver_spec(m, audio).queue.len() == 0,
        !deliver_spec(m, audio).speaking,
        chunk_failed_spec(m).interrupted,
        chunk_failed_spec(m).queue.len() == 0,
        !chunk_failed_spec(m).speaking,
        next_playback_spec(m) == m,
        stream_wf(deliver_spec(m, audio)),
        stream_wf(chunk_failed_spec(m)),
{
}

} // verus!
