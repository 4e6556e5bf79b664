//! High-level message parser for MIL-STD-1553B: splits byte streams into
//! 5-byte word chunks, drives the Manchester codec, and classifies word
//! sequences into messages.

use vstd::prelude::*;
use vstd::arithmetic::div_mod::lemma_fundamental_div_mod_converse;
use crate::encoding::{
    bits_of_word,
    decoded_bits,
    manchester_bytes,
    pairs_valid_upto,
    word_of_bits,
    ManchesterDecoder,
    ManchesterEncoder,
};
use crate::error::ParseError;
use crate::message::{
    command_data_bits,
    decoded_command_of,
    decoded_status_of,
    status_data_bits,
    Command,
    Message,
    StatusWord,
};
use crate::word::{frame_data_bits, lemma_framed_parity_valid, parity_valid, Bus, Word, WordType};

verus! {

/// A parsed MIL-STD-1553B transaction
#[derive(Debug, Clone)]
pub struct Transaction {
    /// Bus on which the transaction occurred
    pub bus: Bus,
    /// The command/status message
    pub message: Message,
    /// Timestamp of the transaction (microseconds, if available)
    pub timestamp_us: Option<u64>,
}

/// The `i`-th 5-byte group of a byte stream.
pub open spec fn word_chunk(data: Seq<u8>, i: int) -> Seq<u8> {
    data.subrange(5 * i, 5 * i + 5)
}

/// The raw 20-bit value recovered from the `i`-th 5-byte group.
pub open spec fn chunk_value(data: Seq<u8>, i: int) -> nat {
    word_of_bits(decoded_bits(word_chunk(data, i), 20))
}

/// The `i`-th group holds 20 legal Manchester pairs.
pub open spec fn chunk_pairs_ok(data: Seq<u8>, i: int) -> bool {
    pairs_valid_upto(word_chunk(data, i), 20)
}

/// The `i`-th group decodes to a word that also passes odd parity.
pub open spec fn chunk_ok(data: Seq<u8>, i: int) -> bool {
    chunk_pairs_ok(data, i) && parity_valid(chunk_value(data, i) as u32)
}

/// Length of the run of Data-tagged words starting at `from`.
pub open spec fn data_prefix_len(words: Seq<Word>, from: int) -> int
    decreases words.len() - from,
{
    if from < 0 || from >= words.len() {
        0
    } else if !(words[from].spec_word_type() is Data) {
        0
    } else {
        1 + data_prefix_len(words, from + 1)
    }
}

proof fn lemma_data_prefix_len_char(words: Seq<Word>, from: int, k: int)
    requires
        1 <= from,
        0 <= k,
        from + k <= words.len(),
        forall|t: int| from <= t < from + k ==> (#[trigger] words[t].spec_word_type()) is Data,
        from + k == words.len() || !(words[from + k].spec_word_type() is Data),
    ensures
        data_prefix_len(words, from) == k,
    decreases k,
{
    if k > 0 {
        lemma_data_prefix_len_char(words, from + 1, k - 1);
    }
}

/// MIL-STD-1553B protocol parser
pub struct Parser {
    /// Current bus context
    pub bus: Bus,
}

impl Parser {
    /// Create a new parser
    pub fn new(bus: Bus) -> (r: Parser)
        ensures
            r.bus == bus,
    {
        Parser { bus }
    }

    /// Parse a single word from Manchester-encoded bytes
    ///
    /// Expects 5 bytes (40 bits) of Manchester-encoded data representing 20
    /// bits.  The word's role cannot be inferred from the bit pattern alone,
    /// so the result carries the provisional `Data` tag.
    pub fn parse_word(&self, data: &[u8]) -> (r: Result<Word, ParseError>)
        ensures
            data@.len() < 5 ==> (r matches Err(e) && e is InsufficientData),
            data@.len() >= 5 && !pairs_valid_upto(data@, 20) ==> (r matches Err(e)
                && e is InvalidManchesterEncoding),
            data@.len() >= 5 && pairs_valid_upto(data@, 20) && !parity_valid(
                word_of_bits(decoded_bits(data@, 20)) as u32,
            ) ==> (r matches Err(e) && e is ParityError),
            data@.len() >= 5 && pairs_valid_upto(data@, 20) && parity_valid(
                word_of_bits(decoded_bits(data@, 20)) as u32,
            ) ==> (r matches Ok(w) && w.spec_data() as nat == word_of_bits(decoded_bits(data@, 20))
                && w.spec_word_type() is Data),
    {
        let word_value = ManchesterDecoder::decode_word(data)?;
        self.identify_word_type_and_create(word_value)
    }

    /// Parse multiple words from raw data: every full 5-byte group is
    /// decoded, trailing bytes are ignored.
    pub fn parse_words(&self, data: &[u8]) -> (r: Result<Vec<Word>, ParseError>)
        ensures
            r is Ok <==> (forall|i: int|
                0 <= i < data@.len() / 5 ==> #[trigger] chunk_ok(data@, i)),
            r matches Ok(words) ==> words@.len() == data@.len() / 5 && forall|i: int|
                0 <= i < words@.len() ==> (#[trigger] words@[i]).spec_data() as nat == chunk_value(
                    data@,
                    i,
                ) && words@[i].spec_word_type() is Data,
            r matches Err(e) ==> exists|i: int|
                0 <= i < data@.len() / 5 && !(#[trigger] chunk_ok(data@, i)) && (forall|j: int|
                    0 <= j < i ==> #[trigger] chunk_ok(data@, j)) && (if !chunk_pairs_ok(data@, i) {
                    e is InvalidManchesterEncoding
                } else {
                    e is ParityError
                }),
    {
        let mut words: Vec<Word> = Vec::new();
        let mut offset: usize = 0;
        while data.len() - offset >= 5
            invariant
                offset <= data@.len(),
                offset == 5 * words@.len(),
                forall|j: int| 0 <= j < words@.len() ==> #[trigger] chunk_ok(data@, j),
                forall|j: int|
                    0 <= j < words@.len() ==> (#[trigger] words@[j]).spec_data() as nat
                        == chunk_value(data@, j) && words@[j].spec_word_type() is Data,
            decreases data@.len() - offset,
        {
            let ghost k = words@.len() as int;
            proof {
                vstd::arithmetic::div_mod::lemma_div_is_ordered(
                    5 * (k + 1),
                    data@.len() as int,
                    5,
                );
                vstd::arithmetic::div_mod::lemma_div_by_multiple(k + 1, 5);
            }
            let chunk = &data[offset..offset + 5];
            assert(chunk@ == word_chunk(data@, k));
            match self.parse_word(chunk) {
                Ok(word) => {
                    words.push(word);
                },
                Err(e) => {
                    proof {
                        assert(!chunk_ok(data@, k));
                        assert(0 <= k < data@.len() / 5);
                        assert(forall|j: int| 0 <= j < k ==> #[trigger] chunk_ok(data@, j));
                    }
                    return Err(e);
                },
            }
            offset = offset + 5;
        }
        proof {
            lemma_fundamental_div_mod_converse(
                data@.len() as int,
                5,
                words@.len() as int,
                data@.len() - offset,
            );
        }
        Ok(words)
    }

    /// Parse a transaction from a raw byte buffer.
    ///
    /// The words recovered from raw bytes carry the provisional `Data` tag
    /// (their role cannot be inferred from the bit pattern alone), so the
    /// classification that requires a leading Command or Status word always
    /// rejects them: callers that know the word roles out-of-band should
    /// build typed words and use [`Parser::parse_message`].
    pub fn parse_transaction(&self, data: &[u8]) -> (r: Result<Transaction, ParseError>)
        ensures
            r is Err,
            r matches Err(e) ==> ({
                let n = data@.len() / 5;
                &&& ((forall|i: int| 0 <= i < n ==> #[trigger] chunk_ok(data@, i)) && n == 0
                    ==> e is InsufficientData)
                &&& ((forall|i: int| 0 <= i < n ==> #[trigger] chunk_ok(data@, i)) && n > 0
                    ==> e is InvalidMessageType)
                &&& (!(forall|i: int| 0 <= i < n ==> #[trigger] chunk_ok(data@, i))
                    ==> e is InvalidManchesterEncoding || e is ParityError)
            }),
    {
        let words = self.parse_words(data)?;
        if words.is_empty() {
            return Err(ParseError::insufficient_data("no words to parse"));
        }
        let message = self.parse_message(words.as_slice())?;
        Ok(Transaction { bus: self.bus, message, timestamp_us: None })
    }

    /// Classify a word sequence into a message: a Command word followed by
    /// its run of Data words, or a single Status word.
    pub fn parse_message(&self, words: &[Word]) -> (r: Result<Message, ParseError>)
        ensures
            words@.len() == 0 ==> (r matches Err(e) && e is InsufficientData),
            words@.len() > 0 && words@[0].spec_word_type() is Command ==> (r matches Ok(m) && ({
                let k = data_prefix_len(words@, 1);
                &&& (k == 0 ==> (m matches Message::CommandOnly(c) && decoded_command_of(
                    words@[0],
                    c,
                )))
                &&& (k > 0 ==> (m matches Message::CommandData { command, data_words }
                    && decoded_command_of(words@[0], command) && data_words@ == words@.subrange(
                    1,
                    1 + k,
                )))
            })),
            words@.len() > 0 && words@[0].spec_word_type() is Status ==> (r matches Ok(m)
                && m matches Message::Status(s) && decoded_status_of(words@[0], s)),
            words@.len() > 0 && !(words@[0].spec_word_type() is Command) && !(
            words@[0].spec_word_type() is Status) ==> (r matches Err(e) && e is InvalidMessageType),
    {
        if words.is_empty() {
            return Err(ParseError::insufficient_data("empty word sequence"));
        }
        let first_word = words[0];
        match first_word.word_type() {
            WordType::Command => {
                let command = Command::from_word(&first_word)?;
                let mut end: usize = 1;
                while end < words.len() && words[end].word_type() == WordType::Data
                    invariant
                        1 <= end <= words@.len(),
                        forall|t: int|
                            1 <= t < end ==> (#[trigger] words@[t].spec_word_type()) is Data,
                    decreases words@.len() - end,
                {
                    end = end + 1;
                }
                proof {
                    lemma_data_prefix_len_char(words@, 1, end - 1);
                }
                if end > 1 {
                    let mut data_words: Vec<Word> = Vec::new();
                    let mut i: usize = 1;
                    while i < end
                        invariant
                            1 <= i <= end,
                            end <= words@.len(),
                            data_words@ == words@.subrange(1, i as int),
                        decreases end - i,
                    {
                        data_words.push(words[i]);
                        proof {
                            assert(data_words@ =~= words@.subrange(1, i + 1));
                        }
                        i = i + 1;
                    }
                    Ok(Message::CommandData { command, data_words })
                } else {
                    Ok(Message::CommandOnly(command))
                }
            },
            WordType::Status => {
                let status = StatusWord::from_word(&first_word)?;
                Ok(Message::Status(status))
            },
            _ => Err(
                ParseError::invalid_message_type("message must start with command or status word"),
            ),
        }
    }

    /// Identify word type and create a Word with appropriate type
    ///
    /// The role cannot be read off the raw bits, so the word is tagged
    /// `Data`; callers that know the role supply it out-of-band.
    fn identify_word_type_and_create(&self, word_value: u32) -> (r: Result<Word, ParseError>)
        ensures
            word_value > 0xFFFFF ==> (r matches Err(e) && e is InvalidWord),
            word_value <= 0xFFFFF && !parity_valid(word_value) ==> (r matches Err(e)
                && e is ParityError),
            word_value <= 0xFFFFF && parity_valid(word_value) ==> (r matches Ok(w) && w.spec_data()
                == word_value && w.spec_word_type() is Data),
    {
        Word::new(word_value, WordType::Data)
    }

    /// Encode a command into its 5 Manchester-encoded bytes
    pub fn encode_command(&self, command: &Command) -> (r: Result<Vec<u8>, ParseError>)
        ensures
            r matches Ok(bytes) && bytes@ == manchester_bytes(
                bits_of_word(frame_data_bits(command_data_bits(*command))),
            ),
    {
        let word = command.to_word()?;
        let encoded = ManchesterEncoder::encode_word(word.data());
        Ok(encoded)
    }

    /// Encode a status word into its 5 Manchester-encoded bytes
    pub fn encode_status(&self, status: &StatusWord) -> (r: Result<Vec<u8>, ParseError>)
        ensures
            r matches Ok(bytes) && bytes@ == manchester_bytes(
                bits_of_word(frame_data_bits(status_data_bits(*status))),
            ),
    {
        let word = status.to_word()?;
        let encoded = ManchesterEncoder::encode_word(word.data());
        Ok(encoded)
    }

    /// Encode raw 16-bit values as framed, Manchester-encoded data words
    pub fn encode_data_words(&self, data: &[u16]) -> (r: Result<Vec<u8>, ParseError>)
        ensures
            r matches Ok(bytes) && bytes@.len() == 5 * data@.len() && forall|i: int|
                0 <= i < data@.len() ==> bytes@.subrange(5 * i, 5 * i + 5) == manchester_bytes(
                    bits_of_word(frame_data_bits(#[trigger] data@[i])),
                ),
    {
        let mut encoded: Vec<u8> = Vec::new();
        let mut i: usize = 0;
        while i < data.len()
            invariant
                i <= data@.len(),
                encoded@.len() == 5 * i,
                forall|t: int|
                    0 <= t < i ==> encoded@.subrange(5 * t, 5 * t + 5) == manchester_bytes(
                        bits_of_word(frame_data_bits(#[trigger] data@[t])),
                    ),
            decreases data@.len() - i,
        {
            let value = data[i];
            proof {
                lemma_framed_parity_valid(value);
            }
            let parity = Word::calculate_parity(value) as u32;
            let word_value = parity * 0x20000 + (value as u32) * 2;
            let word = Word::new(word_value, WordType::Data)?;
            let mut word_encoded = ManchesterEncoder::encode_word(word.data());
            let ghost prev = encoded@;
            encoded.append(&mut word_encoded);
            proof {
                assert forall|t: int| 0 <= t < i + 1 implies encoded@.subrange(5 * t, 5 * t + 5)
                    == manchester_bytes(bits_of_word(frame_data_bits(#[trigger] data@[t]))) by {
                    if t < i {
                        assert(encoded@.subrange(5 * t, 5 * t + 5) =~= prev.subrange(
                            5 * t,
                            5 * t + 5,
                        ));
                    } else {
                        assert(encoded@.subrange(5 * t, 5 * t + 5) =~= manchester_bytes(
                            bits_of_word(frame_data_bits(data@[t])),
                        ));
                    }
                }
            }
            i = i + 1;
        }
        Ok(encoded)
    }
}

/// Builder for parsing MIL-STD-1553B data streams
pub struct ParserBuilder {
    bus: Bus,
}

impl ParserBuilder {
    /// The configured bus, as seen by specifications.
    pub closed spec fn spec_bus(self) -> Bus {
        self.bus
    }

    /// Create a new parser builder
    pub fn new() -> (r: ParserBuilder)
        ensures
            r.spec_bus() is BusA,
    {
        ParserBuilder { bus: Bus::BusA }
    }

    /// Set the bus
    pub fn with_bus(self, bus: Bus) -> (r: ParserBuilder)
        ensures
            r.spec_bus() == bus,
    {
        ParserBuilder { bus }
    }

    /// Build the parser
    pub fn build(self) -> (r: Parser)
        ensures
            r.bus == self.spec_bus(),
    {
        Parser::new(self.bus)
    }
}

impl Default for ParserBuilder {
    fn default() -> (r: Self)
        ensures
            r.spec_bus() is BusA,
    {
        Self::new()
    }
}

} // verus!
