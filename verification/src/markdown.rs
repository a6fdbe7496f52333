//! A markdown page as the flat run of tokens that the scanner reads.

use pulldown_cmark::{BlockQuoteKind, Event, Options, Parser, Tag, TagEnd};
use vstd::prelude::*;

verus! {

/// What the scanner tells apart in a markdown page.
#[derive(Debug, Clone, PartialEq, Eq)]
pub enum Token {
    /// The box of a task-list item; `true` when it is ticked.
    TaskMarker(bool),
    /// The start of a block quote marked as a note.
    NoteStart,
    /// The start of a block quote marked as important.
    ImportantStart,
    /// The end of a block quote of any kind.
    QuoteEnd,
    /// A run of plain text.
    Text(String),
    /// Anything else.
    Other,
}

/// A [`Token`] with its text as a sequence of characters.
pub ghost enum TokenView {
    TaskMarker(bool),
    NoteStart,
    ImportantStart,
    QuoteEnd,
    Text(Seq<char>),
    Other,
}

impl View for Token {
    type V = TokenView;

    open spec fn view(&self) -> TokenView {
        match *self {
            Token::TaskMarker(done) => TokenView::TaskMarker(done),
            Token::NoteStart => TokenView::NoteStart,
            Token::ImportantStart => TokenView::ImportantStart,
            Token::QuoteEnd => TokenView::QuoteEnd,
            Token::Text(text) => TokenView::Text(text@),
            Token::Other => TokenView::Other,
        }
    }
}

/// The views of `tokens`, in order.
pub open spec fn views(tokens: Seq<Token>) -> Seq<TokenView> {
    tokens.map_values(|token: Token| token@)
}

/// The tokens that pulldown-cmark's parser yields for the page `text`, with
/// task lists and GitHub-flavoured markdown switched on or off.
pub uninterp spec fn markdown_tokens(text: Seq<char>, task_lists: bool, gfm: bool) -> Seq<
    TokenView,
>;

/// Runs pulldown-cmark's `Parser::new_ext` over `text` with the two options
/// set as given, and keeps of each event what a [`Token`] holds. The events
/// depend on the text and the options alone.
#[verifier::external_body]
fn parse_page(text: &str, task_lists: bool, gfm: bool) -> (r: Vec<Token>)
    ensures
        views(r@) == markdown_tokens(text@, task_lists, gfm),
{
    let mut options = Options::empty();
    options.set(Options::ENABLE_TASKLISTS, task_lists);
    options.set(Options::ENABLE_GFM, gfm);
    Parser::new_ext(text, options).map(|event| match event {
        Event::TaskListMarker(done) => Token::TaskMarker(done),
        Event::Start(Tag::BlockQuote(Some(BlockQuoteKind::Note))) => Token::NoteStart,
        Event::Start(Tag::BlockQuote(Some(BlockQuoteKind::Important))) => Token::ImportantStart,
        Event::End(TagEnd::BlockQuote) => Token::QuoteEnd,
        Event::Text(run) => Token::Text(run.to_string()),
        _ => Token::Other,
    }).collect()
}

/// The tokens of a journal page: markdown with task lists and the
/// GitHub-flavoured extensions.
pub fn tokenize(text: &str) -> (tokens: Vec<Token>)
    ensures
        views(tokens@) == markdown_tokens(text@, true, true),
{
    parse_page(text, true, true)
}

} // verus!
