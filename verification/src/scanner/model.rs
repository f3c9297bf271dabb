use crate::scanner::error::LexicalErrorModel;
use crate::scanner::tokens::{Operator, ReservedWord, Separator, Token};
use crate::state_machine::model::MachineModel;
use crate::symbols::model::TableModel;
use crate::symbols::symbol::{ConstView, SymbolView};
use crate::utils::grapheme_clusters;
use vstd::prelude::*;

verus! {

/// What a program stands for: its tokens and the models of its two tables.
pub struct ProgramModel {
    pub tokens: Seq<Token>,
    pub idents: TableModel,
    pub consts: TableModel,
}

impl ProgramModel {
    /// The program without tokens and symbols.
    pub open spec fn empty() -> ProgramModel {
        ProgramModel { tokens: Seq::empty(), idents: TableModel::empty(), consts: TableModel::empty() }
    }

    /// Both tables are well formed.
    pub open spec fn wf(self) -> bool {
        self.idents.wf() && self.consts.wf()
    }
}

/// Whether `c` is a decimal digit.
pub open spec fn is_digit(c: char) -> bool {
    '0' <= c <= '9'
}

/// Whether `c` is an ASCII letter, a decimal digit or an underscore.
pub open spec fn is_word_char(c: char) -> bool {
    c == '_' || 'a' <= c <= 'z' || 'A' <= c <= 'Z' || '0' <= c <= '9'
}

/// Whether `text` holds decimal digits only.
pub open spec fn is_decimal(text: Seq<char>) -> bool {
    forall|i: int| 0 <= i < text.len() ==> is_digit(#[trigger] text[i])
}

/// The number that the decimal digits of `text` spell; 0 for an empty text.
pub open spec fn decimal_value(text: Seq<char>) -> nat
    decreases text.len(),
{
    if text.len() == 0 {
        0
    } else {
        (decimal_value(text.drop_last()) * 10 + (text.last() as int - '0' as int)) as nat
    }
}

/// What a string literal holds: `word` is made of a double quote, letters,
/// digits and underscores, and a double quote, and the result is what stands
/// between the quotes.
pub open spec fn str_literal(word: Seq<char>) -> Option<Seq<char>> {
    if word.len() >= 2 && word.first() == '"' && word.last() == '"' && forall|i: int|
        1 <= i < word.len() - 1 ==> is_word_char(#[trigger] word[i]) {
        Some(word.subrange(1, word.len() - 1))
    } else {
        None
    }
}

/// What a character literal holds: `word` is made of a single quote, one
/// letter, digit or underscore, and a single quote, and the result is what
/// stands between the quotes.
pub open spec fn char_literal(word: Seq<char>) -> Option<char> {
    if word.len() == 3 && word[0] == '\'' && is_word_char(word[1]) && word[2] == '\'' {
        Some(word[1])
    } else {
        None
    }
}

/// What a word is.
pub enum Lexeme {
    /// The empty word.
    Nothing,
    /// A reserved word.
    Reserved(ReservedWord),
    /// A number literal and its value.
    Number(i32),
    /// A string literal and what it holds.
    Str(Seq<char>),
    /// A character literal and what it holds.
    Char(char),
    /// An identifier.
    Ident,
    /// None of these.
    Unknown,
}

/// What `word` is, where `clusters` are its grapheme clusters; the first of
/// these counts: a reserved word; nothing, for the empty word; a number
/// literal, where `numbers` accepts the clusters; a string literal; a
/// character literal; an identifier, where `names` accepts the clusters. A
/// word that `numbers` accepts is unknown where it does not spell a number of
/// 32 bits in decimal digits.
pub open spec fn classify_with(
    word: Seq<char>,
    clusters: Seq<Seq<char>>,
    numbers: MachineModel,
    names: MachineModel,
) -> Lexeme {
    if ReservedWord::parse(word) is Some {
        Lexeme::Reserved(ReservedWord::parse(word)->0)
    } else if word.len() == 0 {
        Lexeme::Nothing
    } else if numbers.accepts(clusters) {
        if is_decimal(word) && decimal_value(word) <= i32::MAX {
            Lexeme::Number(decimal_value(word) as i32)
        } else {
            Lexeme::Unknown
        }
    } else if str_literal(word) is Some {
        Lexeme::Str(str_literal(word)->0)
    } else if char_literal(word) is Some {
        Lexeme::Char(char_literal(word)->0)
    } else if names.accepts(clusters) {
        Lexeme::Ident
    } else {
        Lexeme::Unknown
    }
}

/// What `word` is: see [`classify_with`], for the grapheme clusters of `word`.
pub open spec fn classify(word: Seq<char>, numbers: MachineModel, names: MachineModel) -> Lexeme {
    classify_with(word, grapheme_clusters(word), numbers, names)
}

/// A scan between two grapheme clusters: the program so far, the word that
/// is not yet classified, and the current line.
pub struct ScanState {
    pub program: ProgramModel,
    pub word: Seq<char>,
    pub line: nat,
}

impl ScanState {
    /// The state in which a scan begins: an empty program, an empty word, line 1.
    pub open spec fn start() -> ScanState {
        ScanState { program: ProgramModel::empty(), word: Seq::empty(), line: 1 }
    }

    /// The state with `token` as one more token.
    pub open spec fn emit(self, token: Token) -> ScanState {
        ScanState {
            program: ProgramModel { tokens: self.program.tokens.push(token), ..self.program },
            ..self
        }
    }

    /// The state with `separator` as one more token, unless it is whitespace.
    pub open spec fn emit_separator(self, separator: Separator) -> ScanState {
        if separator == Separator::Whitespace {
            self
        } else {
            self.emit(Token::Separator(separator))
        }
    }

    /// The state after `grapheme` was read: one line further where it is a line feed.
    pub open spec fn count_line(self, grapheme: Seq<char>) -> ScanState {
        ScanState { line: if grapheme == "\n"@ {
            self.line + 1
        } else {
            self.line
        }, ..self }
    }

    /// The error for a word that is none of the things that a word can be.
    pub open spec fn unknown_word(self) -> LexicalErrorModel {
        LexicalErrorModel { message: "Failed to parse \""@ + self.word + "\""@, line: self.line }
    }

    /// The error for a new symbol that the table which would take it has no room for.
    pub open spec fn table_full(self) -> LexicalErrorModel {
        LexicalErrorModel { message: "Symbol table is full"@, line: self.line }
    }

    /// The state after the constant `value` was interned and a literal token
    /// was added for it, with an empty word; or the error where the constant
    /// is new and the table of constants has no room.
    pub open spec fn intern_const(self, value: ConstView) -> Result<ScanState, LexicalErrorModel> {
        let symbol = SymbolView::Const(value);
        if self.program.consts.can_take(symbol) {
            Ok(
                ScanState {
                    program: ProgramModel {
                        tokens: self.program.tokens.push(
                            Token::Literal(self.program.consts.id_on_insert(symbol) as usize),
                        ),
                        consts: self.program.consts.insert(symbol),
                        ..self.program
                    },
                    word: Seq::empty(),
                    ..self
                },
            )
        } else {
            Err(self.table_full())
        }
    }

    /// The state after the word was interned as an identifier and an
    /// identifier token was added for it, with an empty word; or the error
    /// where the identifier is new and the table of identifiers has no room.
    pub open spec fn intern_ident(self) -> Result<ScanState, LexicalErrorModel> {
        let symbol = SymbolView::Ident(self.word);
        if self.program.idents.can_take(symbol) {
            Ok(
                ScanState {
                    program: ProgramModel {
                        tokens: self.program.tokens.push(
                            Token::Ident(self.program.idents.id_on_insert(symbol) as usize),
                        ),
                        idents: self.program.idents.insert(symbol),
                        ..self.program
                    },
                    word: Seq::empty(),
                    ..self
                },
            )
        } else {
            Err(self.table_full())
        }
    }

    /// The state after the word was classified and its token added, with an
    /// empty word; or the error where the word is unknown or a table is full.
    pub open spec fn flush(self, numbers: MachineModel, names: MachineModel) -> Result<
        ScanState,
        LexicalErrorModel,
    > {
        self.flush_with(grapheme_clusters(self.word), numbers, names)
    }

    /// The state after the word, whose grapheme clusters are `clusters`, was
    /// classified and its token added, with an empty word; or the error where
    /// the word is unknown or a table is full.
    pub open spec fn flush_with(
        self,
        clusters: Seq<Seq<char>>,
        numbers: MachineModel,
        names: MachineModel,
    ) -> Result<ScanState, LexicalErrorModel> {
        match classify_with(self.word, clusters, numbers, names) {
            Lexeme::Nothing => Ok(ScanState { word: Seq::empty(), ..self }),
            Lexeme::Reserved(reserved_word) => Ok(
                ScanState { word: Seq::empty(), ..self.emit(Token::ReservedWord(reserved_word)) },
            ),
            Lexeme::Number(value) => self.intern_const(ConstView::I32(value)),
            Lexeme::Str(value) => self.intern_const(ConstView::Str(value)),
            Lexeme::Char(value) => self.intern_const(ConstView::Char(value)),
            Lexeme::Ident => self.intern_ident(),
            Lexeme::Unknown => Err(self.unknown_word()),
        }
    }
}

/// The grapheme cluster at `at`, or the empty text where there is none.
pub open spec fn lookahead(graphemes: Seq<Seq<char>>, at: int) -> Seq<char> {
    if 0 <= at < graphemes.len() {
        graphemes[at]
    } else {
        Seq::empty()
    }
}

/// The state at the end of a scan that stands at the grapheme cluster `at`
/// in `state`, or the first error.
///
/// A separator ends the word and becomes a token unless it is whitespace. An
/// operator ends the word; where it may be the first half of another
/// operator and is one together with the next cluster, the two become one
/// token and the scan goes on behind them; else it becomes a token by
/// itself. Any other cluster goes to the end of the word. The end of the
/// text ends the word.
pub open spec fn scan_from(
    graphemes: Seq<Seq<char>>,
    at: int,
    state: ScanState,
    numbers: MachineModel,
    names: MachineModel,
) -> Result<ScanState, LexicalErrorModel>
    decreases graphemes.len() + 1 - at,
{
    if at < 0 || at >= graphemes.len() {
        state.flush(numbers, names)
    } else {
        let grapheme = graphemes[at];
        if Separator::parse(grapheme) is Some {
            match state.flush(numbers, names) {
                Ok(flushed) => scan_from(
                    graphemes,
                    at + 1,
                    flushed.emit_separator(Separator::parse(grapheme)->0).count_line(grapheme),
                    numbers,
                    names,
                ),
                Err(error) => Err(error),
            }
        } else if Operator::parse(grapheme) is Some {
            let operator = Operator::parse(grapheme)->0;
            let pair = Operator::parse(grapheme + lookahead(graphemes, at + 1));
            match state.flush(numbers, names) {
                Ok(flushed) => if operator.extensible() && pair is Some {
                    scan_from(
                        graphemes,
                        at + 2,
                        flushed.emit(Token::Operator(pair->0)).count_line(grapheme),
                        numbers,
                        names,
                    )
                } else {
                    scan_from(
                        graphemes,
                        at + 1,
                        flushed.emit(Token::Operator(operator)).count_line(grapheme),
                        numbers,
                        names,
                    )
                },
                Err(error) => Err(error),
            }
        } else {
            scan_from(
                graphemes,
                at + 1,
                ScanState { word: state.word + grapheme, ..state }.count_line(grapheme),
                numbers,
                names,
            )
        }
    }
}

/// The program that a scan of `graphemes` gives, or the first error.
pub open spec fn scan(graphemes: Seq<Seq<char>>, numbers: MachineModel, names: MachineModel) -> Result<
    ProgramModel,
    LexicalErrorModel,
> {
    match scan_from(graphemes, 0, ScanState::start(), numbers, names) {
        Ok(state) => Ok(state.program),
        Err(error) => Err(error),
    }
}

/// The error for a text of more grapheme clusters than the scanner can count.
pub open spec fn too_long() -> LexicalErrorModel {
    LexicalErrorModel { message: "Source is too long"@, line: 1 }
}

/// The program that a scan of `source` gives, or the first error: the scan
/// of its grapheme clusters, where they can be counted.
pub open spec fn scan_source(source: Seq<char>, numbers: MachineModel, names: MachineModel) -> Result<
    ProgramModel,
    LexicalErrorModel,
> {
    if grapheme_clusters(source).len() < usize::MAX {
        scan(grapheme_clusters(source), numbers, names)
    } else {
        Err(too_long())
    }
}

} // verus!
