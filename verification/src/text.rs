//! Preparation of a text query for the text tower.

use crate::codec::EMBEDDING_DIM;
use vstd::prelude::*;
use vstd::slice::slice_subrange;
use vstd::string::*;

verus! {

/// Where the text tower lies among the resources.
pub const TEXT_MODEL_RESOURCE: &'static str =
    "onnx_models/clap-htsat-unfused_text_with_projection.onnx";

/// Where the tokenizer's description lies among the resources.
pub const TOKENIZER_RESOURCE: &'static str = "onnx_models/tokenizer/tokenizer.json";

/// Prompts of at most this many characters get the prefix.
pub const MIN_SEARCH_STRING_LENGTH: usize = 10;

/// The words put before a short prompt.
pub open spec fn short_prompt_prefix() -> Seq<char> {
    "The sound of "@
}

/// The text that is tokenized for a prompt: short prompts are prefixed,
/// longer ones are taken as they are.
pub open spec fn preprocessed(search_string: Seq<char>) -> Seq<char> {
    if search_string.len() <= MIN_SEARCH_STRING_LENGTH {
        short_prompt_prefix() + search_string
    } else {
        search_string
    }
}

/// Prepares a prompt for tokenization: a prompt of ten characters or fewer
/// is prefixed with `"The sound of "`.
pub fn preprocess_search_string(search_string: &str) -> (text: String)
    ensures
        text@ == preprocessed(search_string@),
{
    if search_string.unicode_len() <= MIN_SEARCH_STRING_LENGTH {
        String::from_str("The sound of ").concat(search_string)
    } else {
        String::from_str(search_string)
    }
}

/// What the tokenizer made of a text: the ids of its tokens and, for
/// each, whether the model is to attend to it.
pub struct Encoding {
    pub ids: Vec<u32>,
    pub attention_mask: Vec<u32>,
}

/// The tokenizer refused a text; the text is its report.
#[derive(Debug)]
pub struct TokenizationError(pub String);

/// The inputs of the text tower for one query. Both have shape
/// `(1, len)`: a batch of one.
pub struct TextInputs {
    pub input_ids: Vec<i64>,
    pub attention_mask: Vec<i64>,
}

/// Token ids or mask values as the 64-bit integers that the model takes.
pub open spec fn widened(values: Seq<u32>) -> Seq<i64> {
    values.map_values(|v: u32| v as i64)
}

fn widen(values: &Vec<u32>) -> (wide: Vec<i64>)
    ensures
        wide@ == widened(values@),
{
    let n: usize = values.len();
    let mut wide: Vec<i64> = Vec::new();
    let mut i: usize = 0;
    while i < n
        invariant
            n == values@.len(),
            i <= n,
            wide@.len() == i,
            forall|k: int| 0 <= k < i ==> wide@[k] == values@[k] as i64,
        decreases n - i,
    {
        wide.push(values[i] as i64);
        i = i + 1;
    }
    proof {
        assert(wide@ =~= widened(values@));
    }
    wide
}

impl TextInputs {
    /// The shape of the token ids: one row of as many ids as there are
    /// tokens.
    pub fn input_ids_shape(&self) -> (shape: (usize, usize))
        ensures
            shape.0 == 1,
            shape.1 == self.input_ids@.len(),
    {
        (1, self.input_ids.len())
    }

    /// The shape of the attention mask: one row of as many values as the
    /// mask has.
    pub fn attention_mask_shape(&self) -> (shape: (usize, usize))
        ensures
            shape.0 == 1,
            shape.1 == self.attention_mask@.len(),
    {
        (1, self.attention_mask.len())
    }
}

/// The inputs of the text tower for an encoding: its ids and its mask,
/// widened, each as a batch of one.
pub fn text_inputs(encoding: &Encoding) -> (inputs: TextInputs)
    ensures
        inputs.input_ids@ == widened(encoding.ids@),
        inputs.attention_mask@ == widened(encoding.attention_mask@),
{
    TextInputs {
        input_ids: widen(&encoding.ids),
        attention_mask: widen(&encoding.attention_mask),
    }
}

/// What comes of a prompt for each answer of the tokenizer: an encoding
/// becomes the inputs of the text tower, and a refusal a
/// `TokenizationError` that carries the tokenizer's report. The caller
/// runs the tokenizer, without special tokens, on what
/// `preprocess_search_string` made of the prompt.
pub fn query_inputs(encoded: Result<Encoding, String>) -> (inputs: Result<
    TextInputs,
    TokenizationError,
>)
    ensures
        match encoded {
            Ok(encoding) => (inputs matches Ok(made) && made.input_ids@ == widened(encoding.ids@)
                && made.attention_mask@ == widened(encoding.attention_mask@)),
            Err(report) => (inputs matches Err(refusal) && refusal.0 == report),
        },
{
    match encoded {
        Ok(encoding) => Ok(text_inputs(&encoding)),
        Err(report) => Err(TokenizationError(report)),
    }
}

/// Why the output of the text tower gave no embedding.
#[derive(Debug, Clone, Copy, PartialEq, Eq, Structural)]
pub enum TextEmbeddingError {
    /// The output has no row, or its values do not fill its rows.
    NoOutputRow,
    /// A row of the output does not have `EMBEDDING_DIM` values.
    WrongDimension { found: usize },
}

/// The embedding of a query in the output of the text tower: the first
/// row, which must have `EMBEDDING_DIM` values. `values` is the output
/// laid out row by row and `rows` the length of its leading axis.
pub fn first_row_embedding(values: &[u32], rows: usize) -> (embedding: Result<
    Vec<u32>,
    TextEmbeddingError,
>)
    ensures
        match embedding {
            Ok(e) => rows > 0 && values@.len() == rows * EMBEDDING_DIM && e@ == values@.subrange(
                0,
                EMBEDDING_DIM as int,
            ),
            Err(TextEmbeddingError::NoOutputRow) => rows == 0 || (values@.len() as int) % (
            rows as int) != 0,
            Err(TextEmbeddingError::WrongDimension { found }) => rows > 0 && (values@.len() as int)
                % (rows as int) == 0 && found == values@.len() / (rows as nat) && found
                != EMBEDDING_DIM,
        },
{
    let len: usize = values.len();
    if rows == 0 || len % rows != 0 {
        return Err(TextEmbeddingError::NoOutputRow);
    }
    let width: usize = len / rows;
    if width != EMBEDDING_DIM {
        return Err(TextEmbeddingError::WrongDimension { found: width });
    }
    proof {
        assert(len == rows * width) by (nonlinear_arith)
            requires
                width == len / rows,
                len % rows == 0,
                rows > 0,
        ;
        assert(rows * width >= width) by (nonlinear_arith)
            requires
                rows >= 1,
                width >= 0,
        ;
    }
    let first = slice_subrange(values, 0, EMBEDDING_DIM);
    let mut embedding: Vec<u32> = Vec::new();
    embedding.extend_from_slice(first);
    proof {
        assert(embedding@ =~= values@.subrange(0, EMBEDDING_DIM as int));
    }
    Ok(embedding)
}

} // verus!
