use crate::scanner::error::{LexicalError, LexicalErrorModel};
use crate::scanner::model::{
    char_literal, decimal_value, is_decimal, is_digit, is_word_char, scan, scan_from, scan_source,
    str_literal, ProgramModel, ScanState,
};
use crate::scanner::tokens::{Operator, ReservedWord, Separator, Token};
use crate::state_machine::StateMachine;
use crate::symbols::{Const, Symbol, SymbolTable};
use crate::text::{str_eq, texts_of};
use crate::utils;
use vstd::prelude::*;
use vstd::string::{StrSliceExecFns, StringExecFns};

verus! {

/// Source file split into its tokens, identifiers and constants.
pub struct Program {
    /// List containing all tokens that make up the source file.
    tokens: Vec<Token>,
    /// Symbol table containing all identifiers.
    idents: SymbolTable,
    /// Symbol table containing all constants.
    consts: SymbolTable,
}

impl View for Program {
    type V = ProgramModel;

    closed spec fn view(&self) -> ProgramModel {
        ProgramModel { tokens: self.tokens@, idents: self.idents@, consts: self.consts@ }
    }
}

impl Default for Program {
    fn default() -> (program: Program)
        ensures
            program.wf(),
            program@ == ProgramModel::empty(),
    {
        Program { tokens: Vec::new(), idents: SymbolTable::default(), consts: SymbolTable::default() }
    }
}

/// Returns whether `c` is an ASCII letter, a decimal digit or an underscore.
fn is_word_character(c: char) -> (word: bool)
    ensures
        word == is_word_char(c),
{
    c == '_' || ('a' <= c && c <= 'z') || ('A' <= c && c <= 'Z') || ('0' <= c && c <= '9')
}

/// The digits of a text spell at least what the first `count` of them spell.
proof fn lemma_decimal_value_grows(text: Seq<char>, count: int)
    requires
        is_decimal(text),
        0 <= count <= text.len(),
    ensures
        decimal_value(text.take(count)) <= decimal_value(text),
    decreases text.len(),
{
    if count == text.len() {
        assert(text.take(count) =~= text);
    } else {
        assert(text.drop_last().take(count) =~= text.take(count));
        assert(is_digit(text.last()));
        lemma_decimal_value_grows(text.drop_last(), count);
    }
}

/// Parses the `input` into a 32-bit signed integer, where it holds decimal
/// digits only and they spell a number that 32 bits can hold.
pub fn checked_parse_i32(input: &str) -> (number: Option<i32>)
    ensures
        number == if is_decimal(input@) && decimal_value(input@) <= i32::MAX {
            Some(decimal_value(input@) as i32)
        } else {
            None
        },
{
    let mut accumulator: i32 = 0;

    for digit in it: input.chars()
        invariant
            it.seq() == input@,
            is_decimal(input@.take(it.index() as int)),
            accumulator == decimal_value(input@.take(it.index() as int)),
    {
        let ghost read = input@.take(it.index() + 1);
        proof {
            assert(read.drop_last() =~= input@.take(it.index() as int));
            assert(read.last() == digit);
        }
        if !('0' <= digit && digit <= '9') {
            assert(!is_digit(input@[it.index() as int]));
            return None;
        }
        let digit: i32 = (digit as u32 - '0' as u32) as i32;

        if accumulator > (i32::MAX - digit) / 10 {
            proof {
                if is_decimal(input@) {
                    lemma_decimal_value_grows(input@, it.index() + 1);
                }
            }
            return None;
        }
        accumulator = accumulator * 10;
        accumulator = accumulator + digit;
        proof {
            assert forall|i: int| 0 <= i < read.len() implies is_digit(#[trigger] read[i]) by {
                if i < it.index() {
                    assert(read[i] == input@.take(it.index() as int)[i]);
                }
            }
        }
    }

    proof {
        assert(input@.take(input@.len() as int) =~= input@);
    }
    Some(accumulator)
}

/// Parses the `input` into a 32-bit signed integer.
pub fn parse_i32(input: &str) -> (number: i32)
    requires
        is_decimal(input@),
        decimal_value(input@) <= i32::MAX,
    ensures
        number == decimal_value(input@),
{
    checked_parse_i32(input).unwrap()
}

/// Returns what stands between the double quotes of a string literal.
pub fn parse_str_literal(word: &str) -> (content: Option<String>)
    ensures
        match content {
            Some(content) => str_literal(word@) == Some(content@),
            None => str_literal(word@) is None,
        },
{
    let len = word.unicode_len();
    if len < 2 {
        return None;
    }
    let mut index: usize = 0;
    for c in it: word.chars()
        invariant
            it.seq() == word@,
            index == it.index(),
            len == word@.len(),
            len >= 2,
            index > 0 ==> word@.first() == '"',
            index == len ==> word@.last() == '"',
            forall|i: int| 1 <= i < index && i < len - 1 ==> is_word_char(#[trigger] word@[i]),
    {
        assert(c == word@[index as int]);
        if index == 0 || index == len - 1 {
            if c != '"' {
                return None;
            }
        } else if !is_word_character(c) {
            return None;
        }
        index += 1;
    }
    Some(String::from_str(word.substring_char(1, len - 1)))
}

/// Returns what stands between the single quotes of a character literal.
pub fn parse_char_literal(word: &str) -> (content: Option<char>)
    ensures
        content == char_literal(word@),
{
    if word.unicode_len() != 3 {
        return None;
    }
    let content = word.get_char(1);
    if word.get_char(0) == '\'' && is_word_character(content) && word.get_char(2) == '\'' {
        Some(content)
    } else {
        None
    }
}

/// Returns the error for a word that is none of the things that a word can be.
fn unknown_word(word: &str, line: usize) -> (error: LexicalError)
    ensures
        error@ == (LexicalErrorModel {
            message: "Failed to parse \""@ + word@ + "\""@,
            line: line as nat,
        }),
{
    let mut message = String::from_str("Failed to parse \"");
    message.append(word);
    message.append("\"");
    LexicalError::new(message, line)
}

/// Returns the error for a symbol that its table has no room for.
fn table_full(line: usize) -> (error: LexicalError)
    ensures
        error@ == (LexicalErrorModel { message: "Symbol table is full"@, line: line as nat }),
{
    LexicalError::new(String::from_str("Symbol table is full"), line)
}

impl Program {
    /// Both tables of the program have a sound layout.
    pub closed spec fn wf(&self) -> bool {
        self.idents.wf() && self.consts.wf()
    }

    /// The model of a program whose tables have a sound layout is well formed.
    pub proof fn lemma_view_wf(&self)
        requires
            self.wf(),
        ensures
            self@.wf(),
    {
        self.idents.lemma_view_wf();
        self.consts.lemma_view_wf();
    }

    /// Creates a new program from the given source code, with the state
    /// machines that say what a number and what an identifier is.
    pub fn from_source(source: &str, numbers: &StateMachine, names: &StateMachine) -> (program:
        Result<Program, LexicalError>)
        requires
            numbers.wf(),
            names.wf(),
        ensures
            match scan_source(source@, numbers@, names@) {
                Ok(scanned) => program matches Ok(program) && program.wf() && program@ == scanned,
                Err(error) => program matches Err(found) && found@ == error,
            },
    {
        let graphemes = utils::str_to_grapheme_clusters(source);
        if graphemes.len() == usize::MAX {
            return Err(LexicalError::new(String::from_str("Source is too long"), 1));
        }
        Self::from_graphemes(graphemes.as_slice(), numbers, names)
    }

    /// Creates a new program from the grapheme clusters of its source code,
    /// with the state machines that say what a number and what an identifier is.
    pub fn from_graphemes(graphemes: &[&str], numbers: &StateMachine, names: &StateMachine) -> (program:
        Result<Program, LexicalError>)
        requires
            numbers.wf(),
            names.wf(),
            graphemes@.len() < usize::MAX,
        ensures
            match scan(texts_of(graphemes@), numbers@, names@) {
                Ok(scanned) => program matches Ok(program) && program.wf() && program@ == scanned,
                Err(error) => program matches Err(found) && found@ == error,
            },
    {
        let mut program = Program::default();
        let mut line: usize = 1;
        let mut word = String::new();
        let mut at: usize = 0;
        let ghost clusters = texts_of(graphemes@);

        while at < graphemes.len()
            invariant
                numbers.wf(),
                names.wf(),
                program.wf(),
                clusters == texts_of(graphemes@),
                graphemes@.len() < usize::MAX,
                at <= graphemes@.len(),
                line <= at + 1,
                scan_from(clusters, 0, ScanState::start(), numbers@, names@) == scan_from(
                    clusters,
                    at as int,
                    ScanState { program: program@, word: word@, line: line as nat },
                    numbers@,
                    names@,
                ),
            decreases graphemes@.len() - at,
        {
            let grapheme = graphemes[at];
            let ghost state = ScanState { program: program@, word: word@, line: line as nat };
            assert(clusters[at as int] == grapheme@);
            let mut next = at + 1;

            if let Some(separator) = Separator::try_parse(grapheme) {
                match program.consume_word(&mut word, line, numbers, names) {
                    Ok(()) => {},
                    Err(error) => {
                        return Err(error);
                    },
                }
                if !separator.is_whitespace() {
                    program.tokens.push(Token::from(separator));
                }
            } else if let Some(operator) = Operator::try_parse(grapheme) {
                match program.consume_word(&mut word, line, numbers, names) {
                    Ok(()) => {},
                    Err(error) => {
                        return Err(error);
                    },
                }
                if operator.needs_lookahead() {
                    let mut operator_string = String::from_str(grapheme);
                    if at + 1 < graphemes.len() {
                        operator_string.append(graphemes[at + 1]);
                        assert(clusters[at + 1] == graphemes@[at + 1]@);
                    }
                    assert(operator_string@ =~= grapheme@ + crate::scanner::model::lookahead(
                        clusters,
                        at + 1,
                    ));

                    if let Some(extended_operator) = Operator::try_parse(operator_string.as_str()) {
                        program.tokens.push(Token::from(extended_operator));
                        if at + 1 < graphemes.len() {
                            next = at + 2;
                        }
                    } else {
                        program.tokens.push(Token::from(operator));
                    }
                } else {
                    program.tokens.push(Token::from(operator));
                }
            } else {
                word.append(grapheme);
            }

            if str_eq(grapheme, "\n") {
                line += 1;
            }
            proof {
                if next == at + 1 && at + 1 == graphemes@.len() {
                    let end = ScanState { program: program@, word: word@, line: line as nat };
                    assert(scan_from(clusters, at + 1, end, numbers@, names@) == scan_from(
                        clusters,
                        at + 2,
                        end,
                        numbers@,
                        names@,
                    ));
                }
            }
            at = next;
        }

        match program.consume_word(&mut word, line, numbers, names) {
            Ok(()) => {},
            Err(error) => {
                return Err(error);
            },
        }
        Ok(program)
    }

    /// Classifies the word, adds its token and symbol to the program, and
    /// empties the word.
    fn consume_word(
        &mut self,
        word: &mut String,
        line: usize,
        numbers: &StateMachine,
        names: &StateMachine,
    ) -> (done: Result<(), LexicalError>)
        requires
            old(self).wf(),
            numbers.wf(),
            names.wf(),
        ensures
            match (ScanState { program: old(self)@, word: old(word)@, line: line as nat }).flush(
                numbers@,
                names@,
            ) {
                Ok(flushed) => done is Ok && final(self).wf() && final(self)@ == flushed.program
                    && final(word)@ == flushed.word,
                Err(error) => done matches Err(found) && found@ == error,
            },
    {
        let sequence = utils::str_to_grapheme_clusters(word.as_str());
        let done = self.consume_segmented_word(
            word.as_str(),
            sequence.as_slice(),
            line,
            numbers,
            names,
        );
        *word = String::new();
        done
    }

    /// Classifies the word, whose grapheme clusters are `sequence`, and adds
    /// its token and symbol to the program.
    pub fn consume_segmented_word(
        &mut self,
        word: &str,
        sequence: &[&str],
        line: usize,
        numbers: &StateMachine,
        names: &StateMachine,
    ) -> (done: Result<(), LexicalError>)
        requires
            old(self).wf(),
            numbers.wf(),
            names.wf(),
        ensures
            match (ScanState {
                program: old(self)@,
                word: word@,
                line: line as nat,
            }).flush_with(texts_of(sequence@), numbers@, names@) {
                Ok(flushed) => done is Ok && final(self).wf() && final(self)@ == flushed.program,
                Err(error) => done matches Err(found) && found@ == error,
            },
    {
        if let Some(reserved_word) = ReservedWord::try_parse(word) {
            self.tokens.push(Token::from(reserved_word));
        } else if !word.is_empty() {
            if numbers.is_accepted(sequence) {
                match checked_parse_i32(word) {
                    Some(number) => {
                        match self.consts.try_insert(Symbol::from(Const::I32(number))) {
                            Some(number_id) => {
                                self.tokens.push(Token::Literal(number_id));
                            },
                            None => {
                                return Err(table_full(line));
                            },
                        }
                    },
                    None => {
                        return Err(unknown_word(word, line));
                    },
                }
            } else if let Some(str_literal) = parse_str_literal(word) {
                match self.consts.try_insert(Symbol::from(Const::Str(str_literal))) {
                    Some(str_literal_id) => {
                        self.tokens.push(Token::Literal(str_literal_id));
                    },
                    None => {
                        return Err(table_full(line));
                    },
                }
            } else if let Some(char_literal) = parse_char_literal(word) {
                match self.consts.try_insert(Symbol::from(Const::Char(char_literal))) {
                    Some(char_literal_id) => {
                        self.tokens.push(Token::Literal(char_literal_id));
                    },
                    None => {
                        return Err(table_full(line));
                    },
                }
            } else if names.is_accepted(sequence) {
                match self.idents.try_insert(Symbol::Ident(String::from_str(word))) {
                    Some(ident_id) => {
                        self.tokens.push(Token::Ident(ident_id));
                    },
                    None => {
                        return Err(table_full(line));
                    },
                }
            } else {
                return Err(unknown_word(word, line));
            }
        }

        Ok(())
    }

    /// Returns a slice of all the tokens that make up the source file.
    #[inline]
    pub fn tokens(&self) -> (tokens: &[Token])
        ensures
            tokens@ == self@.tokens,
    {
        self.tokens.as_slice()
    }

    /// Returns the symbol table containing all identifiers from the source file.
    #[inline]
    pub fn idents(&self) -> (idents: &SymbolTable)
        ensures
            idents@ == self@.idents,
            self.wf() ==> idents.wf(),
    {
        &self.idents
    }

    /// Returns the symbol table containing all constants from the source file.
    #[inline]
    pub fn consts(&self) -> (consts: &SymbolTable)
        ensures
            consts@ == self@.consts,
            self.wf() ==> consts.wf(),
    {
        &self.consts
    }
}

} // verus!
