//! Exact-position location of CSS declarations in project stylesheets.
use vstd::prelude::*;
use crate::text::{
    all_ws, byte_len, byte_len_within, chars_of, is_ascii_alnum, is_ascii_ws, is_blank, is_control,
    is_ws, lower, lower_char, lower_seq, lower_seq_eq, trim, trim_bounds, utf16_width,
};

verus! {

/// Largest stylesheet (in bytes) that the parser reads.
pub const MAX_CSS_FILE_BYTES: usize = 524288;
pub const MAX_PARSED_RULES: usize = 512;
pub const MAX_PARSED_DECLARATIONS: usize = 4096;
pub const MAX_PARSE_DEPTH: usize = 12;
pub const MAX_COMPONENT_DEPTH: usize = 32;

/// Positions are bounded by this many characters in every scanner.
pub open spec fn scan_bound() -> int {
    usize::MAX - 4
}

#[derive(Debug, Clone, Copy, PartialEq, Eq)]
pub enum CssParseError {
    Invalid,
    Unsupported,
    Limit,
}

#[derive(Debug, Clone, Copy, PartialEq, Eq)]
pub enum RuleBoundary {
    Semicolon(usize),
    Block(usize),
    End,
}

pub open spec fn opens_comment(s: Seq<char>, c: int, end: int) -> bool {
    0 <= c && c + 1 < end && s[c] == '/' && s[c + 1] == '*'
}

pub open spec fn closes_comment(s: Seq<char>, c: int, end: int) -> bool {
    0 <= c && c + 1 < end && s[c] == '*' && s[c + 1] == '/'
}

/// Position just after the first `*/` at or after `c` (before `end`).
pub open spec fn comment_close_from(s: Seq<char>, c: int, end: int) -> Result<int, CssParseError>
    decreases end - c,
{
    if c + 1 < end {
        if s[c] == '*' && s[c + 1] == '/' {
            Ok(c + 2)
        } else {
            comment_close_from(s, c + 1, end)
        }
    } else {
        Err(CssParseError::Invalid)
    }
}

pub open spec fn spec_skip_comment(s: Seq<char>, start: int, end: int) -> Result<int, CssParseError> {
    comment_close_from(s, start + 2, end)
}

pub proof fn lemma_comment_close_from(s: Seq<char>, c: int, end: int)
    requires
        0 <= c,
    ensures
        match comment_close_from(s, c, end) {
            Ok(p) => c + 2 <= p <= end && closes_comment(s, p - 2, end) && forall|k: int|
                c <= k < p - 2 ==> !closes_comment(s, k, end),
            Err(e) => e == CssParseError::Invalid && forall|k: int|
                c <= k < end ==> !closes_comment(s, k, end),
        },
    decreases end - c,
{
    if c + 1 < end {
        if !(s[c] == '*' && s[c + 1] == '/') {
            lemma_comment_close_from(s, c + 1, end);
        }
    }
}

/// Skips a comment that opens at `start`; returns the position after its close.
pub fn skip_comment(s: &[char], start: usize, end: usize) -> (r: Result<usize, CssParseError>)
    requires
        start + 2 <= end <= s@.len() < scan_bound(),
    ensures
        match r {
            Ok(p) => spec_skip_comment(s@, start as int, end as int) == Ok::<int, CssParseError>(p as int),
            Err(e) => spec_skip_comment(s@, start as int, end as int) == Err::<int, CssParseError>(e),
        },
        match r {
            Ok(p) => start + 4 <= p <= end && closes_comment(s@, p - 2, end as int) && forall|k: int|
                start + 2 <= k < p - 2 ==> !closes_comment(s@, k, end as int),
            Err(e) => e == CssParseError::Invalid && forall|k: int|
                start + 2 <= k < end ==> !closes_comment(s@, k, end as int),
        },
{
    let mut cursor = start + 2;
    while cursor + 1 < end
        invariant
            start + 2 <= cursor <= end,
            end <= s@.len() < scan_bound(),
            comment_close_from(s@, cursor as int, end as int) == spec_skip_comment(
                s@,
                start as int,
                end as int,
            ),
        decreases end - cursor,
    {
        if s[cursor] == '*' && s[cursor + 1] == '/' {
            proof {
                lemma_comment_close_from(s@, start + 2, end as int);
            }
            return Ok(cursor + 2);
        }
        cursor += 1;
    }
    proof {
        lemma_comment_close_from(s@, start + 2, end as int);
    }
    Err(CssParseError::Invalid)
}

/// Scanner state of `find_rule_boundary` after position `c`.
pub open spec fn rule_boundary_from(
    s: Seq<char>,
    c: int,
    end: int,
    quote: Option<char>,
    paren: int,
    bracket: int,
) -> Result<RuleBoundary, CssParseError>
    decreases end + 2 - c,
{
    if c >= end || c < 0 || c > usize::MAX || end + 2 - c < 0 {
        if quote is Some || paren != 0 || bracket != 0 {
            Err(CssParseError::Invalid)
        } else {
            Ok(RuleBoundary::End)
        }
    } else {
        let ch = s[c];
        match quote {
            Some(mark) => {
                if ch == '\\' {
                    rule_boundary_from(s, c + 2, end, quote, paren, bracket)
                } else if ch == mark {
                    rule_boundary_from(s, c + 1, end, None, paren, bracket)
                } else {
                    rule_boundary_from(s, c + 1, end, quote, paren, bracket)
                }
            },
            None => {
                if opens_comment(s, c, end) {
                    match comment_close_from(s, c + 2, end) {
                        Ok(p) => {
                            proof {
                                lemma_comment_close_from(s, c + 2, end);
                            }
                            rule_boundary_from(s, p, end, quote, paren, bracket)
                        },
                        Err(e) => Err(e),
                    }
                } else if ch == '\'' || ch == '"' {
                    rule_boundary_from(s, c + 1, end, Some(ch), paren, bracket)
                } else if ch == '(' {
                    if paren + 1 > 32 {
                        Err(CssParseError::Limit)
                    } else {
                        rule_boundary_from(s, c + 1, end, quote, paren + 1, bracket)
                    }
                } else if ch == ')' {
                    if paren == 0 {
                        Err(CssParseError::Invalid)
                    } else {
                        rule_boundary_from(s, c + 1, end, quote, paren - 1, bracket)
                    }
                } else if ch == '[' {
                    if bracket + 1 > 32 {
                        Err(CssParseError::Limit)
                    } else {
                        rule_boundary_from(s, c + 1, end, quote, paren, bracket + 1)
                    }
                } else if ch == ']' {
                    if bracket == 0 {
                        Err(CssParseError::Invalid)
                    } else {
                        rule_boundary_from(s, c + 1, end, quote, paren, bracket - 1)
                    }
                } else if ch == ';' && paren == 0 && bracket == 0 {
                    Ok(RuleBoundary::Semicolon(c as usize))
                } else if ch == '{' && paren == 0 && bracket == 0 {
                    Ok(RuleBoundary::Block(c as usize))
                } else if ch == '}' && paren == 0 && bracket == 0 {
                    Err(CssParseError::Invalid)
                } else {
                    rule_boundary_from(s, c + 1, end, quote, paren, bracket)
                }
            },
        }
    }
}

/// Finds the `;` or `{` that ends the rule prelude starting at `cursor`.
pub fn find_rule_boundary(s: &[char], start: usize, end: usize) -> (r: Result<
    RuleBoundary,
    CssParseError,
>)
    requires
        start <= end <= s@.len() < scan_bound(),
    ensures
        r == rule_boundary_from(s@, start as int, end as int, None, 0, 0),
{
    let mut cursor = start;
    let mut quote: Option<char> = None;
    let mut paren: usize = 0;
    let mut bracket: usize = 0;
    while cursor < end
        invariant
            cursor <= end + 1,
            end <= s@.len() < scan_bound(),
            paren <= 32,
            bracket <= 32,
            rule_boundary_from(s@, cursor as int, end as int, quote, paren as int, bracket as int)
                == rule_boundary_from(s@, start as int, end as int, None, 0, 0),
        decreases end + 2 - cursor,
    {
        let ch = s[cursor];
        if let Some(mark) = quote {
            if ch == '\\' {
                cursor = cursor + 2;
                continue;
            }
            if ch == mark {
                quote = None;
            }
            cursor += 1;
            continue;
        }
        if ch == '/' && cursor + 1 < end && s[cursor + 1] == '*' {
            cursor = skip_comment(s, cursor, end)?;
            continue;
        }
        if ch == '\'' || ch == '"' {
            quote = Some(ch);
        } else if ch == '(' {
            paren += 1;
            if paren > MAX_COMPONENT_DEPTH {
                return Err(CssParseError::Limit);
            }
        } else if ch == ')' {
            if paren == 0 {
                return Err(CssParseError::Invalid);
            }
            paren -= 1;
        } else if ch == '[' {
            bracket += 1;
            if bracket > MAX_COMPONENT_DEPTH {
                return Err(CssParseError::Limit);
            }
        } else if ch == ']' {
            if bracket == 0 {
                return Err(CssParseError::Invalid);
            }
            bracket -= 1;
        } else if ch == ';' && paren == 0 && bracket == 0 {
            return Ok(RuleBoundary::Semicolon(cursor));
        } else if ch == '{' && paren == 0 && bracket == 0 {
            return Ok(RuleBoundary::Block(cursor));
        } else if ch == '}' && paren == 0 && bracket == 0 {
            return Err(CssParseError::Invalid);
        }
        cursor += 1;
    }
    if quote.is_some() || paren != 0 || bracket != 0 {
        Err(CssParseError::Invalid)
    } else {
        Ok(RuleBoundary::End)
    }
}


pub proof fn lemma_rule_boundary_range(
    s: Seq<char>,
    c: int,
    end: int,
    quote: Option<char>,
    paren: int,
    bracket: int,
)
    requires
        0 <= c,
    ensures
        match rule_boundary_from(s, c, end, quote, paren, bracket) {
            Ok(RuleBoundary::Semicolon(p)) => c <= p < end,
            Ok(RuleBoundary::Block(p)) => c <= p < end,
            _ => true,
        },
    decreases end + 2 - c,
{
    if c < end && c <= usize::MAX && end + 2 - c >= 0 {
        let ch = s[c];
        match quote {
            Some(mark) => {
                if ch == '\\' {
                    lemma_rule_boundary_range(s, c + 2, end, quote, paren, bracket);
                } else if ch == mark {
                    lemma_rule_boundary_range(s, c + 1, end, None, paren, bracket);
                } else {
                    lemma_rule_boundary_range(s, c + 1, end, quote, paren, bracket);
                }
            },
            None => {
                if opens_comment(s, c, end) {
                    lemma_comment_close_from(s, c + 2, end);
                    match comment_close_from(s, c + 2, end) {
                        Ok(p) => lemma_rule_boundary_range(s, p, end, quote, paren, bracket),
                        Err(_) => {},
                    }
                } else if ch == '\'' || ch == '"' {
                    lemma_rule_boundary_range(s, c + 1, end, Some(ch), paren, bracket);
                } else if ch == '(' {
                    lemma_rule_boundary_range(s, c + 1, end, quote, paren + 1, bracket);
                } else if ch == ')' {
                    lemma_rule_boundary_range(s, c + 1, end, quote, paren - 1, bracket);
                } else if ch == '[' {
                    lemma_rule_boundary_range(s, c + 1, end, quote, paren, bracket + 1);
                } else if ch == ']' {
                    lemma_rule_boundary_range(s, c + 1, end, quote, paren, bracket - 1);
                } else {
                    lemma_rule_boundary_range(s, c + 1, end, quote, paren, bracket);
                }
            },
        }
    }
}

/// Scanner state of `find_matching_brace` at position `c`.
pub open spec fn brace_from(s: Seq<char>, c: int, end: int, quote: Option<char>, depth: int) -> Result<
    int,
    CssParseError,
>
    decreases end + 2 - c,
{
    if c >= end || c < 0 || end + 2 - c < 0 {
        Err(CssParseError::Invalid)
    } else {
        let ch = s[c];
        match quote {
            Some(mark) => {
                if ch == '\\' {
                    brace_from(s, c + 2, end, quote, depth)
                } else if ch == mark {
                    brace_from(s, c + 1, end, None, depth)
                } else {
                    brace_from(s, c + 1, end, quote, depth)
                }
            },
            None => {
                if opens_comment(s, c, end) {
                    match comment_close_from(s, c + 2, end) {
                        Ok(p) => {
                            proof {
                                lemma_comment_close_from(s, c + 2, end);
                            }
                            brace_from(s, p, end, quote, depth)
                        },
                        Err(e) => Err(e),
                    }
                } else if ch == '\'' || ch == '"' {
                    brace_from(s, c + 1, end, Some(ch), depth)
                } else if ch == '{' {
                    if depth + 1 > 14 {
                        Err(CssParseError::Limit)
                    } else {
                        brace_from(s, c + 1, end, quote, depth + 1)
                    }
                } else if ch == '}' {
                    if depth - 1 == 0 {
                        Ok(c)
                    } else {
                        brace_from(s, c + 1, end, quote, depth - 1)
                    }
                } else {
                    brace_from(s, c + 1, end, quote, depth)
                }
            },
        }
    }
}

pub proof fn lemma_brace_range(s: Seq<char>, c: int, end: int, quote: Option<char>, depth: int)
    requires
        0 <= c,
    ensures
        match brace_from(s, c, end, quote, depth) {
            Ok(p) => c <= p < end,
            _ => true,
        },
    decreases end + 2 - c,
{
    if c < end && end + 2 - c >= 0 {
        let ch = s[c];
        match quote {
            Some(mark) => {
                if ch == '\\' {
                    lemma_brace_range(s, c + 2, end, quote, depth);
                } else if ch == mark {
                    lemma_brace_range(s, c + 1, end, None, depth);
                } else {
                    lemma_brace_range(s, c + 1, end, quote, depth);
                }
            },
            None => {
                if opens_comment(s, c, end) {
                    lemma_comment_close_from(s, c + 2, end);
                    match comment_close_from(s, c + 2, end) {
                        Ok(p) => lemma_brace_range(s, p, end, quote, depth),
                        Err(_) => {},
                    }
                } else if ch == '\'' || ch == '"' {
                    lemma_brace_range(s, c + 1, end, Some(ch), depth);
                } else if ch == '{' {
                    lemma_brace_range(s, c + 1, end, quote, depth + 1);
                } else if ch == '}' {
                    lemma_brace_range(s, c + 1, end, quote, depth - 1);
                } else {
                    lemma_brace_range(s, c + 1, end, quote, depth);
                }
            },
        }
    }
}

/// Finds the `}` that closes the block opened at `open`.
pub fn find_matching_brace(s: &[char], open: usize, end: usize) -> (r: Result<usize, CssParseError>)
    requires
        open < end <= s@.len() < scan_bound(),
    ensures
        match r {
            Ok(p) => brace_from(s@, open + 1, end as int, None, 1) == Ok::<int, CssParseError>(p as int)
                && open < p < end,
            Err(e) => brace_from(s@, open + 1, end as int, None, 1) == Err::<int, CssParseError>(e),
        },
{
    let mut cursor = open + 1;
    let mut quote: Option<char> = None;
    let mut depth: usize = 1;
    proof {
        lemma_brace_range(s@, open + 1, end as int, None, 1);
    }
    while cursor < end
        invariant
            open < cursor <= end + 1,
            end <= s@.len() < scan_bound(),
            1 <= depth <= 14,
            brace_from(s@, cursor as int, end as int, quote, depth as int) == brace_from(
                s@,
                open + 1,
                end as int,
                None,
                1,
            ),
            match brace_from(s@, open + 1, end as int, None, 1) {
                Ok(p) => open + 1 <= p < end,
                _ => true,
            },
        decreases end + 2 - cursor,
    {
        let ch = s[cursor];
        if let Some(mark) = quote {
            if ch == '\\' {
                cursor = cursor + 2;
                continue;
            }
            if ch == mark {
                quote = None;
            }
            cursor += 1;
            continue;
        }
        if ch == '/' && cursor + 1 < end && s[cursor + 1] == '*' {
            cursor = skip_comment(s, cursor, end)?;
            continue;
        }
        if ch == '\'' || ch == '"' {
            quote = Some(ch);
        } else if ch == '{' {
            depth += 1;
            if depth > MAX_PARSE_DEPTH + 2 {
                return Err(CssParseError::Limit);
            }
        } else if ch == '}' {
            depth -= 1;
            if depth == 0 {
                return Ok(cursor);
            }
        }
        cursor += 1;
    }
    Err(CssParseError::Invalid)
}

/// Scanner state of `find_declaration_end` at position `c`.
pub open spec fn declaration_end_from(
    s: Seq<char>,
    c: int,
    end: int,
    quote: Option<char>,
    paren: int,
    bracket: int,
) -> Result<int, CssParseError>
    decreases end + 2 - c,
{
    if c >= end || c < 0 || end + 2 - c < 0 {
        if quote is Some || paren != 0 || bracket != 0 {
            Err(CssParseError::Invalid)
        } else {
            Ok(end)
        }
    } else {
        let ch = s[c];
        match quote {
            Some(mark) => {
                if ch == '\\' {
                    declaration_end_from(s, c + 2, end, quote, paren, bracket)
                } else if ch == mark {
                    declaration_end_from(s, c + 1, end, None, paren, bracket)
                } else {
                    declaration_end_from(s, c + 1, end, quote, paren, bracket)
                }
            },
            None => {
                if opens_comment(s, c, end) {
                    match comment_close_from(s, c + 2, end) {
                        Ok(p) => {
                            proof {
                                lemma_comment_close_from(s, c + 2, end);
                            }
                            declaration_end_from(s, p, end, quote, paren, bracket)
                        },
                        Err(e) => Err(e),
                    }
                } else if ch == '\'' || ch == '"' {
                    declaration_end_from(s, c + 1, end, Some(ch), paren, bracket)
                } else if ch == '(' {
                    if paren + 1 > 32 {
                        Err(CssParseError::Limit)
                    } else {
                        declaration_end_from(s, c + 1, end, quote, paren + 1, bracket)
                    }
                } else if ch == ')' {
                    if paren == 0 {
                        Err(CssParseError::Invalid)
                    } else {
                        declaration_end_from(s, c + 1, end, quote, paren - 1, bracket)
                    }
                } else if ch == '[' {
                    if bracket + 1 > 32 {
                        Err(CssParseError::Limit)
                    } else {
                        declaration_end_from(s, c + 1, end, quote, paren, bracket + 1)
                    }
                } else if ch == ']' {
                    if bracket == 0 {
                        Err(CssParseError::Invalid)
                    } else {
                        declaration_end_from(s, c + 1, end, quote, paren, bracket - 1)
                    }
                } else if ch == ';' && paren == 0 && bracket == 0 {
                    Ok(c)
                } else if (ch == '{' || ch == '}') && paren == 0 && bracket == 0 {
                    Err(CssParseError::Unsupported)
                } else {
                    declaration_end_from(s, c + 1, end, quote, paren, bracket)
                }
            },
        }
    }
}

pub proof fn lemma_declaration_end_range(
    s: Seq<char>,
    c: int,
    end: int,
    quote: Option<char>,
    paren: int,
    bracket: int,
)
    requires
        0 <= c <= end,
    ensures
        match declaration_end_from(s, c, end, quote, paren, bracket) {
            Ok(p) => c <= p <= end,
            _ => true,
        },
    decreases end + 2 - c,
{
    if c < end {
        let ch = s[c];
        match quote {
            Some(mark) => {
                if ch == '\\' {
                    if c + 2 <= end {
                        lemma_declaration_end_range(s, c + 2, end, quote, paren, bracket);
                    }
                } else if ch == mark {
                    lemma_declaration_end_range(s, c + 1, end, None, paren, bracket);
                } else {
                    lemma_declaration_end_range(s, c + 1, end, quote, paren, bracket);
                }
            },
            None => {
                if opens_comment(s, c, end) {
                    lemma_comment_close_from(s, c + 2, end);
                    match comment_close_from(s, c + 2, end) {
                        Ok(p) => lemma_declaration_end_range(s, p, end, quote, paren, bracket),
                        Err(_) => {},
                    }
                } else if ch == '\'' || ch == '"' {
                    lemma_declaration_end_range(s, c + 1, end, Some(ch), paren, bracket);
                } else if ch == '(' {
                    lemma_declaration_end_range(s, c + 1, end, quote, paren + 1, bracket);
                } else if ch == ')' {
                    lemma_declaration_end_range(s, c + 1, end, quote, paren - 1, bracket);
                } else if ch == '[' {
                    lemma_declaration_end_range(s, c + 1, end, quote, paren, bracket + 1);
                } else if ch == ']' {
                    lemma_declaration_end_range(s, c + 1, end, quote, paren, bracket - 1);
                } else {
                    lemma_declaration_end_range(s, c + 1, end, quote, paren, bracket);
                }
            },
        }
    }
}

/// Finds the `;` (or the end of the block) that ends the declaration starting at `start`.
pub fn find_declaration_end(s: &[char], start: usize, end: usize) -> (r: Result<
    usize,
    CssParseError,
>)
    requires
        start <= end <= s@.len() < scan_bound(),
    ensures
        match r {
            Ok(p) => declaration_end_from(s@, start as int, end as int, None, 0, 0) == Ok::<
                int,
                CssParseError,
            >(p as int) && start <= p <= end,
            Err(e) => declaration_end_from(s@, start as int, end as int, None, 0, 0) == Err::<
                int,
                CssParseError,
            >(e),
        },
{
    proof {
        lemma_declaration_end_range(s@, start as int, end as int, None, 0, 0);
    }
    let mut cursor = start;
    let mut quote: Option<char> = None;
    let mut paren: usize = 0;
    let mut bracket: usize = 0;
    while cursor < end
        invariant
            start <= cursor <= end + 1,
            end <= s@.len() < scan_bound(),
            paren <= 32,
            bracket <= 32,
            declaration_end_from(s@, cursor as int, end as int, quote, paren as int, bracket as int)
                == declaration_end_from(s@, start as int, end as int, None, 0, 0),
            match declaration_end_from(s@, start as int, end as int, None, 0, 0) {
                Ok(p) => start <= p <= end,
                _ => true,
            },
        decreases end + 2 - cursor,
    {
        let ch = s[cursor];
        if let Some(mark) = quote {
            if ch == '\\' {
                cursor = cursor + 2;
                continue;
            }
            if ch == mark {
                quote = None;
            }
            cursor += 1;
            continue;
        }
        if ch == '/' && cursor + 1 < end && s[cursor + 1] == '*' {
            cursor = skip_comment(s, cursor, end)?;
            continue;
        }
        if ch == '\'' || ch == '"' {
            quote = Some(ch);
        } else if ch == '(' {
            paren += 1;
            if paren > MAX_COMPONENT_DEPTH {
                return Err(CssParseError::Limit);
            }
        } else if ch == ')' {
            if paren == 0 {
                return Err(CssParseError::Invalid);
            }
            paren -= 1;
        } else if ch == '[' {
            bracket += 1;
            if bracket > MAX_COMPONENT_DEPTH {
                return Err(CssParseError::Limit);
            }
        } else if ch == ']' {
            if bracket == 0 {
                return Err(CssParseError::Invalid);
            }
            bracket -= 1;
        } else if ch == ';' && paren == 0 && bracket == 0 {
            return Ok(cursor);
        } else if (ch == '{' || ch == '}') && paren == 0 && bracket == 0 {
            return Err(CssParseError::Unsupported);
        }
        cursor += 1;
    }
    if quote.is_some() || paren != 0 || bracket != 0 {
        Err(CssParseError::Invalid)
    } else {
        Ok(end)
    }
}

/// Scanner state of `find_top_level_colon` at position `c`.
pub open spec fn colon_from(
    s: Seq<char>,
    c: int,
    end: int,
    quote: Option<char>,
    paren: int,
    bracket: int,
) -> Result<Option<int>, CssParseError>
    decreases end + 2 - c,
{
    if c >= end || c < 0 || end + 2 - c < 0 {
        Ok(None)
    } else {
        let ch = s[c];
        match quote {
            Some(mark) => {
                if ch == '\\' {
                    colon_from(s, c + 2, end, quote, paren, bracket)
                } else if ch == mark {
                    colon_from(s, c + 1, end, None, paren, bracket)
                } else {
                    colon_from(s, c + 1, end, quote, paren, bracket)
                }
            },
            None => {
                if opens_comment(s, c, end) {
                    match comment_close_from(s, c + 2, end) {
                        Ok(p) => {
                            proof {
                                lemma_comment_close_from(s, c + 2, end);
                            }
                            colon_from(s, p, end, quote, paren, bracket)
                        },
                        Err(e) => Err(e),
                    }
                } else if ch == '\'' || ch == '"' {
                    colon_from(s, c + 1, end, Some(ch), paren, bracket)
                } else if ch == '(' {
                    colon_from(s, c + 1, end, quote, paren + 1, bracket)
                } else if ch == ')' {
                    if paren == 0 {
                        Err(CssParseError::Invalid)
                    } else {
                        colon_from(s, c + 1, end, quote, paren - 1, bracket)
                    }
                } else if ch == '[' {
                    colon_from(s, c + 1, end, quote, paren, bracket + 1)
                } else if ch == ']' {
                    if bracket == 0 {
                        Err(CssParseError::Invalid)
                    } else {
                        colon_from(s, c + 1, end, quote, paren, bracket - 1)
                    }
                } else if ch == ':' && paren == 0 && bracket == 0 {
                    Ok(Some(c))
                } else {
                    colon_from(s, c + 1, end, quote, paren, bracket)
                }
            },
        }
    }
}

pub proof fn lemma_colon_range(
    s: Seq<char>,
    c: int,
    end: int,
    quote: Option<char>,
    paren: int,
    bracket: int,
)
    requires
        0 <= c,
    ensures
        match colon_from(s, c, end, quote, paren, bracket) {
            Ok(Some(p)) => c <= p < end,
            _ => true,
        },
    decreases end + 2 - c,
{
    if c < end && end + 2 - c >= 0 {
        let ch = s[c];
        match quote {
            Some(mark) => {
                if ch == '\\' {
                    lemma_colon_range(s, c + 2, end, quote, paren, bracket);
                } else if ch == mark {
                    lemma_colon_range(s, c + 1, end, None, paren, bracket);
                } else {
                    lemma_colon_range(s, c + 1, end, quote, paren, bracket);
                }
            },
            None => {
                if opens_comment(s, c, end) {
                    lemma_comment_close_from(s, c + 2, end);
                    match comment_close_from(s, c + 2, end) {
                        Ok(p) => lemma_colon_range(s, p, end, quote, paren, bracket),
                        Err(_) => {},
                    }
                } else if ch == '\'' || ch == '"' {
                    lemma_colon_range(s, c + 1, end, Some(ch), paren, bracket);
                } else if ch == '(' {
                    lemma_colon_range(s, c + 1, end, quote, paren + 1, bracket);
                } else if ch == ')' {
                    lemma_colon_range(s, c + 1, end, quote, paren - 1, bracket);
                } else if ch == '[' {
                    lemma_colon_range(s, c + 1, end, quote, paren, bracket + 1);
                } else if ch == ']' {
                    lemma_colon_range(s, c + 1, end, quote, paren, bracket - 1);
                } else {
                    lemma_colon_range(s, c + 1, end, quote, paren, bracket);
                }
            },
        }
    }
}

/// Finds the first `:` outside quotes, comments, parentheses and brackets.
pub fn find_top_level_colon(s: &[char], start: usize, end: usize) -> (r: Result<
    Option<usize>,
    CssParseError,
>)
    requires
        start <= end <= s@.len() < scan_bound(),
    ensures
        match r {
            Ok(Some(p)) => colon_from(s@, start as int, end as int, None, 0, 0) == Ok::<
                Option<int>,
                CssParseError,
            >(Some(p as int)) && start <= p < end,
            Ok(None) => colon_from(s@, start as int, end as int, None, 0, 0) == Ok::<
                Option<int>,
                CssParseError,
            >(None),
            Err(e) => colon_from(s@, start as int, end as int, None, 0, 0) == Err::<
                Option<int>,
                CssParseError,
            >(e),
        },
{
    proof {
        lemma_colon_range(s@, start as int, end as int, None, 0, 0);
    }
    let mut cursor = start;
    let mut quote: Option<char> = None;
    let mut paren: usize = 0;
    let mut bracket: usize = 0;
    while cursor < end
        invariant
            start <= cursor <= end + 1,
            end <= s@.len() < scan_bound(),
            paren <= cursor,
            bracket <= cursor,
            colon_from(s@, cursor as int, end as int, quote, paren as int, bracket as int)
                == colon_from(s@, start as int, end as int, None, 0, 0),
            match colon_from(s@, start as int, end as int, None, 0, 0) {
                Ok(Some(p)) => start <= p < end,
                _ => true,
            },
        decreases end + 2 - cursor,
    {
        let ch = s[cursor];
        if let Some(mark) = quote {
            if ch == '\\' {
                cursor = cursor + 2;
                continue;
            }
            if ch == mark {
                quote = None;
            }
            cursor += 1;
            continue;
        }
        if ch == '/' && cursor + 1 < end && s[cursor + 1] == '*' {
            cursor = skip_comment(s, cursor, end)?;
            continue;
        }
        if ch == '\'' || ch == '"' {
            quote = Some(ch);
        } else if ch == '(' {
            paren += 1;
        } else if ch == ')' {
            if paren == 0 {
                return Err(CssParseError::Invalid);
            }
            paren -= 1;
        } else if ch == '[' {
            bracket += 1;
        } else if ch == ']' {
            if bracket == 0 {
                return Err(CssParseError::Invalid);
            }
            bracket -= 1;
        } else if ch == ':' && paren == 0 && bracket == 0 {
            return Ok(Some(cursor));
        }
        cursor += 1;
    }
    Ok(None)
}


/// Position after the whitespace and comments that start at `c`.
pub open spec fn skip_ws_from(s: Seq<char>, c: int, end: int) -> Result<int, CssParseError>
    decreases end + 2 - c,
{
    if c >= end || c < 0 || end + 2 - c < 0 {
        Ok(c)
    } else if is_ascii_ws(s[c]) {
        skip_ws_from(s, c + 1, end)
    } else if opens_comment(s, c, end) {
        match comment_close_from(s, c + 2, end) {
            Ok(p) => {
                proof {
                    lemma_comment_close_from(s, c + 2, end);
                }
                skip_ws_from(s, p, end)
            },
            Err(e) => Err(e),
        }
    } else {
        Ok(c)
    }
}

pub proof fn lemma_skip_ws_range(s: Seq<char>, c: int, end: int)
    requires
        0 <= c <= end,
    ensures
        match skip_ws_from(s, c, end) {
            Ok(p) => c <= p <= end,
            _ => true,
        },
    decreases end + 2 - c,
{
    if c < end {
        if is_ascii_ws(s[c]) {
            lemma_skip_ws_range(s, c + 1, end);
        } else if opens_comment(s, c, end) {
            lemma_comment_close_from(s, c + 2, end);
            match comment_close_from(s, c + 2, end) {
                Ok(p) => lemma_skip_ws_range(s, p, end),
                Err(_) => {},
            }
        }
    }
}

/// Advances `cursor` past whitespace and comments.
pub fn skip_ws_comments(s: &[char], cursor: &mut usize, end: usize) -> (r: Result<(), CssParseError>)
    requires
        *old(cursor) <= end <= s@.len() < scan_bound(),
    ensures
        match r {
            Ok(()) => skip_ws_from(s@, *old(cursor) as int, end as int) == Ok::<int, CssParseError>(
                *final(cursor) as int,
            ) && *old(cursor) <= *final(cursor) <= end,
            Err(e) => skip_ws_from(s@, *old(cursor) as int, end as int) == Err::<int, CssParseError>(
                e,
            ),
        },
{
    let ghost c0: int = *cursor as int;
    proof {
        lemma_skip_ws_range(s@, c0, end as int);
    }
    while *cursor < end
        invariant
            c0 == *old(cursor),
            c0 <= *cursor <= end,
            end <= s@.len() < scan_bound(),
            skip_ws_from(s@, *cursor as int, end as int) == skip_ws_from(s@, c0, end as int),
        decreases end - *cursor,
    {
        let c = *cursor;
        if crate::text::ascii_ws(s[c]) {
            *cursor = c + 1;
            continue;
        }
        if s[c] == '/' && c + 1 < end && s[c + 1] == '*' {
            let p = skip_comment(s, c, end)?;
            *cursor = p;
            continue;
        }
        return Ok(());
    }
    Ok(())
}

/// Position of the first character that is neither whitespace nor inside a comment.
pub fn first_non_ws_comment(s: &[char], start: usize, end: usize) -> (r: Result<
    Option<usize>,
    CssParseError,
>)
    requires
        start <= end <= s@.len() < scan_bound(),
    ensures
        match r {
            Ok(Some(p)) => skip_ws_from(s@, start as int, end as int) == Ok::<int, CssParseError>(
                p as int,
            ) && start <= p < end,
            Ok(None) => skip_ws_from(s@, start as int, end as int) == Ok::<int, CssParseError>(
                end as int,
            ),
            Err(e) => skip_ws_from(s@, start as int, end as int) == Err::<int, CssParseError>(e),
        },
{
    let mut cursor = start;
    skip_ws_comments(s, &mut cursor, end)?;
    if cursor < end {
        Ok(Some(cursor))
    } else {
        Ok(None)
    }
}

/// Output of `strip_comments` after reading `v[..i]` into `out`.
pub open spec fn strip_from(
    v: Seq<char>,
    i: int,
    quote: Option<char>,
    escaped: bool,
    out: Seq<char>,
) -> Result<Seq<char>, CssParseError>
    decreases v.len() + 2 - i,
{
    if i >= v.len() || i < 0 {
        if quote is Some || escaped {
            Err(CssParseError::Invalid)
        } else {
            Ok(out)
        }
    } else if quote is None && opens_comment(v, i, v.len() as int) {
        match comment_close_from(v, i + 2, v.len() as int) {
            Ok(p) => {
                proof {
                    lemma_comment_close_from(v, i + 2, v.len() as int);
                }
                let out2 = if out.len() > 0 && is_ws(out.last()) {
                    out
                } else {
                    out.push(' ')
                };
                strip_from(v, p, quote, escaped, out2)
            },
            Err(e) => Err(e),
        }
    } else {
        let ch = v[i];
        let out2 = out.push(ch);
        match quote {
            Some(mark) => {
                if escaped {
                    strip_from(v, i + 1, quote, false, out2)
                } else if ch == '\\' {
                    strip_from(v, i + 1, quote, true, out2)
                } else if ch == mark {
                    strip_from(v, i + 1, None, false, out2)
                } else {
                    strip_from(v, i + 1, quote, false, out2)
                }
            },
            None => {
                if ch == '\'' || ch == '"' {
                    strip_from(v, i + 1, Some(ch), escaped, out2)
                } else {
                    strip_from(v, i + 1, quote, escaped, out2)
                }
            },
        }
    }
}

/// `value` with each comment replaced by (at most) one space.
pub open spec fn spec_strip_comments(v: Seq<char>) -> Result<Seq<char>, CssParseError> {
    strip_from(v, 0, None, false, Seq::empty())
}

/// Removes comments outside quoted strings.
pub fn strip_comments(v: &[char]) -> (r: Result<Vec<char>, CssParseError>)
    requires
        v@.len() < scan_bound(),
    ensures
        match r {
            Ok(out) => spec_strip_comments(v@) == Ok::<Seq<char>, CssParseError>(out@) && out@.len()
                <= v@.len(),
            Err(e) => spec_strip_comments(v@) == Err::<Seq<char>, CssParseError>(e),
        },
{
    let mut out: Vec<char> = Vec::new();
    let mut cursor: usize = 0;
    let mut quote: Option<char> = None;
    let mut escaped = false;
    while cursor < v.len()
        invariant
            cursor <= v@.len() < scan_bound(),
            out@.len() <= cursor,
            strip_from(v@, cursor as int, quote, escaped, out@) == spec_strip_comments(v@),
        decreases v@.len() - cursor,
    {
        if quote.is_none() && v[cursor] == '/' && cursor + 1 < v.len() && v[cursor + 1] == '*' {
            cursor = skip_comment(v, cursor, v.len())?;
            let last_ws = out.len() > 0 && crate::text::unicode_ws(out[out.len() - 1]);
            if !last_ws {
                out.push(' ');
            }
            continue;
        }
        let ch = v[cursor];
        out.push(ch);
        cursor += 1;
        if let Some(mark) = quote {
            if escaped {
                escaped = false;
            } else if ch == '\\' {
                escaped = true;
            } else if ch == mark {
                quote = None;
            }
        } else if ch == '\'' || ch == '"' {
            quote = Some(ch);
        }
    }
    if quote.is_some() || escaped {
        Err(CssParseError::Invalid)
    } else {
        Ok(out)
    }
}

/// Output of `collapse_css_ws` after reading `v[..i]` into `out`.
pub open spec fn collapse_from(
    v: Seq<char>,
    i: int,
    quote: Option<char>,
    pending: bool,
    out: Seq<char>,
) -> Result<Seq<char>, CssParseError>
    decreases v.len() + 2 - i,
{
    if i >= v.len() || i < 0 {
        if quote is Some {
            Err(CssParseError::Invalid)
        } else {
            Ok(trim(out))
        }
    } else {
        let ch = v[i];
        match quote {
            Some(mark) => {
                if ch == '\\' {
                    if i + 1 < v.len() {
                        collapse_from(v, i + 2, quote, pending, out.push(ch).push(v[i + 1]))
                    } else {
                        collapse_from(v, i + 1, quote, pending, out.push(ch))
                    }
                } else if ch == mark {
                    collapse_from(v, i + 1, None, pending, out.push(ch))
                } else {
                    collapse_from(v, i + 1, quote, pending, out.push(ch))
                }
            },
            None => {
                let spaced = if pending && out.len() > 0 {
                    out.push(' ')
                } else {
                    out
                };
                if ch == '\'' || ch == '"' {
                    collapse_from(v, i + 1, Some(ch), false, spaced.push(ch))
                } else if is_ascii_ws(ch) {
                    collapse_from(v, i + 1, quote, true, out)
                } else {
                    collapse_from(v, i + 1, quote, false, spaced.push(ch))
                }
            },
        }
    }
}

/// Runs of ASCII whitespace outside quotes collapsed to one space, then trimmed.
pub open spec fn spec_collapse_css_ws(v: Seq<char>) -> Result<Seq<char>, CssParseError> {
    collapse_from(v, 0, None, false, Seq::empty())
}

/// Collapses whitespace outside quoted strings.
pub fn collapse_css_ws(v: &[char]) -> (r: Result<Vec<char>, CssParseError>)
    ensures
        match r {
            Ok(out) => spec_collapse_css_ws(v@) == Ok::<Seq<char>, CssParseError>(out@) && out@.len()
                <= v@.len(),
            Err(e) => spec_collapse_css_ws(v@) == Err::<Seq<char>, CssParseError>(e),
        },
{
    let mut out: Vec<char> = Vec::new();
    let mut quote: Option<char> = None;
    let mut pending = false;
    let mut i: usize = 0;
    while i < v.len()
        invariant
            i <= v@.len(),
            out@.len() + (if pending { 1int } else { 0int }) <= i,
            collapse_from(v@, i as int, quote, pending, out@) == spec_collapse_css_ws(v@),
        decreases v@.len() - i,
    {
        let ch = v[i];
        if let Some(mark) = quote {
            out.push(ch);
            if ch == '\\' {
                if i + 1 < v.len() {
                    out.push(v[i + 1]);
                    i += 2;
                    continue;
                }
            } else if ch == mark {
                quote = None;
            }
            i += 1;
            continue;
        }
        if ch == '\'' || ch == '"' {
            if pending && out.len() > 0 {
                out.push(' ');
            }
            pending = false;
            quote = Some(ch);
            out.push(ch);
        } else if crate::text::ascii_ws(ch) {
            pending = true;
        } else {
            if pending && out.len() > 0 {
                out.push(' ');
            }
            pending = false;
            out.push(ch);
        }
        i += 1;
    }
    if quote.is_some() {
        return Err(CssParseError::Invalid);
    }
    let (a, b) = trim_bounds(out.as_slice());
    let mut trimmed: Vec<char> = Vec::new();
    let mut k = a;
    while k < b
        invariant
            a <= k <= b <= out@.len(),
            trimmed@ == out@.subrange(a as int, k as int),
        decreases b - k,
    {
        trimmed.push(out[k]);
        proof {
            assert(out@.subrange(a as int, k + 1) == out@.subrange(a as int, k as int).push(out@[k as int]));
        }
        k += 1;
    }
    Ok(trimmed)
}

/// Whether a backslash occurs outside quoted strings (after `v[..i]`).
pub open spec fn unquoted_backslash_from(v: Seq<char>, i: int, quote: Option<char>, escaped: bool) -> bool
    decreases v.len() - i,
{
    if i >= v.len() || i < 0 {
        false
    } else {
        let ch = v[i];
        match quote {
            Some(mark) => {
                if escaped {
                    unquoted_backslash_from(v, i + 1, quote, false)
                } else if ch == '\\' {
                    unquoted_backslash_from(v, i + 1, quote, true)
                } else if ch == mark {
                    unquoted_backslash_from(v, i + 1, None, false)
                } else {
                    unquoted_backslash_from(v, i + 1, quote, false)
                }
            },
            None => {
                if ch == '\'' || ch == '"' {
                    unquoted_backslash_from(v, i + 1, Some(ch), escaped)
                } else if ch == '\\' {
                    true
                } else {
                    unquoted_backslash_from(v, i + 1, quote, escaped)
                }
            },
        }
    }
}

pub fn contains_unquoted_backslash(v: &[char]) -> (r: bool)
    ensures
        r == unquoted_backslash_from(v@, 0, None, false),
{
    let mut quote: Option<char> = None;
    let mut escaped = false;
    let mut i: usize = 0;
    while i < v.len()
        invariant
            i <= v@.len(),
            unquoted_backslash_from(v@, i as int, quote, escaped) == unquoted_backslash_from(
                v@,
                0,
                None,
                false,
            ),
        decreases v@.len() - i,
    {
        let ch = v[i];
        i += 1;
        if let Some(mark) = quote {
            if escaped {
                escaped = false;
            } else if ch == '\\' {
                escaped = true;
            } else if ch == mark {
                quote = None;
            }
            continue;
        }
        if ch == '\'' || ch == '"' {
            quote = Some(ch);
        } else if ch == '\\' {
            return true;
        }
    }
    false
}


pub open spec fn word_important() -> Seq<char> {
    seq!['i', 'm', 'p', 'o', 'r', 't', 'a', 'n', 't']
}

pub open spec fn leading_ascii_ws(s: Seq<char>) -> nat
    decreases s.len(),
{
    if s.len() > 0 && is_ascii_ws(s[0]) {
        1 + leading_ascii_ws(s.drop_first())
    } else {
        0
    }
}

/// Whether the text after a `!` reads `important` (ASCII case-insensitive) and nothing else.
pub open spec fn important_tail(rest: Seq<char>) -> bool {
    let t = rest.skip(leading_ascii_ws(rest) as int);
    t.len() >= 9 && lower_seq(t.take(9)) == word_important() && trim(t.skip(9)).len() == 0
}

pub proof fn lemma_leading_ascii_ws_le(s: Seq<char>)
    ensures
        leading_ascii_ws(s) <= s.len(),
    decreases s.len(),
{
    if s.len() > 0 && is_ascii_ws(s[0]) {
        lemma_leading_ascii_ws_le(s.drop_first());
    }
}

fn important_follows(v: &[char], bang: usize) -> (r: bool)
    requires
        bang < v@.len() < scan_bound(),
    ensures
        r == important_tail(v@.skip(bang + 1)),
{
    let ghost rest = v@.skip(bang + 1);
    let mut i = bang + 1;
    proof {
        assert(rest.skip(0) == rest);
    }
    while i < v.len() && crate::text::ascii_ws(v[i])
        invariant
            bang + 1 <= i <= v@.len(),
            rest == v@.skip(bang + 1),
            leading_ascii_ws(rest) == (i - bang - 1) + leading_ascii_ws(v@.skip(i as int)),
        decreases v@.len() - i,
    {
        proof {
            assert(v@.skip(i as int).drop_first() == v@.skip(i + 1));
        }
        i += 1;
    }
    proof {
        lemma_leading_ascii_ws_le(v@.skip(i as int));
        assert(rest.skip(leading_ascii_ws(rest) as int) == v@.skip(i as int));
    }
    if v.len() - i < 9 {
        return false;
    }
    let word: [char; 9] = ['i', 'm', 'p', 'o', 'r', 't', 'a', 'n', 't'];
    proof {
        assert(word@ =~= word_important());
        assert(v@.skip(i as int).take(9) == v@.subrange(i as int, i + 9));
        assert(v@.skip(i as int).skip(9) == v@.subrange(i + 9, v@.len() as int));
    }
    if !lower_seq_eq(&v[i..i + 9], &word) {
        return false;
    }
    is_blank(&v[i + 9..v.len()])
}

/// Scanner state of `top_level_important_index` at position `i`.
pub open spec fn important_from(
    v: Seq<char>,
    i: int,
    quote: Option<char>,
    paren: int,
    bracket: int,
) -> Result<Option<int>, CssParseError>
    decreases v.len() + 2 - i,
{
    if i >= v.len() || i < 0 {
        if quote is Some || paren != 0 || bracket != 0 {
            Err(CssParseError::Invalid)
        } else {
            Ok(None)
        }
    } else {
        let ch = v[i];
        match quote {
            Some(mark) => {
                if ch == '\\' {
                    important_from(v, i + 2, quote, paren, bracket)
                } else if ch == mark {
                    important_from(v, i + 1, None, paren, bracket)
                } else {
                    important_from(v, i + 1, quote, paren, bracket)
                }
            },
            None => {
                if ch == '\'' || ch == '"' {
                    important_from(v, i + 1, Some(ch), paren, bracket)
                } else if ch == '(' {
                    important_from(v, i + 1, quote, paren + 1, bracket)
                } else if ch == ')' {
                    if paren == 0 {
                        Err(CssParseError::Invalid)
                    } else {
                        important_from(v, i + 1, quote, paren - 1, bracket)
                    }
                } else if ch == '[' {
                    important_from(v, i + 1, quote, paren, bracket + 1)
                } else if ch == ']' {
                    if bracket == 0 {
                        Err(CssParseError::Invalid)
                    } else {
                        important_from(v, i + 1, quote, paren, bracket - 1)
                    }
                } else if ch == '!' && paren == 0 && bracket == 0 && important_tail(v.skip(i + 1)) {
                    Ok(Some(i))
                } else {
                    important_from(v, i + 1, quote, paren, bracket)
                }
            },
        }
    }
}

pub proof fn lemma_important_range(v: Seq<char>, i: int, quote: Option<char>, paren: int, bracket: int)
    requires
        0 <= i,
    ensures
        match important_from(v, i, quote, paren, bracket) {
            Ok(Some(p)) => i <= p < v.len(),
            _ => true,
        },
    decreases v.len() + 2 - i,
{
    if i < v.len() {
        let ch = v[i];
        match quote {
            Some(mark) => {
                if ch == '\\' {
                    lemma_important_range(v, i + 2, quote, paren, bracket);
                } else if ch == mark {
                    lemma_important_range(v, i + 1, None, paren, bracket);
                } else {
                    lemma_important_range(v, i + 1, quote, paren, bracket);
                }
            },
            None => {
                if ch == '\'' || ch == '"' {
                    lemma_important_range(v, i + 1, Some(ch), paren, bracket);
                } else if ch == '(' {
                    lemma_important_range(v, i + 1, quote, paren + 1, bracket);
                } else if ch == ')' {
                    lemma_important_range(v, i + 1, quote, paren - 1, bracket);
                } else if ch == '[' {
                    lemma_important_range(v, i + 1, quote, paren, bracket + 1);
                } else if ch == ']' {
                    lemma_important_range(v, i + 1, quote, paren, bracket - 1);
                } else {
                    lemma_important_range(v, i + 1, quote, paren, bracket);
                }
            },
        }
    }
}

/// Position of a top-level `!important` marker, if the value ends with one.
pub fn top_level_important_index(v: &[char]) -> (r: Result<Option<usize>, CssParseError>)
    requires
        v@.len() < scan_bound(),
    ensures
        match r {
            Ok(Some(p)) => important_from(v@, 0, None, 0, 0) == Ok::<Option<int>, CssParseError>(
                Some(p as int),
            ) && p < v@.len(),
            Ok(None) => important_from(v@, 0, None, 0, 0) == Ok::<Option<int>, CssParseError>(None),
            Err(e) => important_from(v@, 0, None, 0, 0) == Err::<Option<int>, CssParseError>(e),
        },
{
    proof {
        lemma_important_range(v@, 0, None, 0, 0);
    }
    let mut cursor: usize = 0;
    let mut quote: Option<char> = None;
    let mut paren: usize = 0;
    let mut bracket: usize = 0;
    while cursor < v.len()
        invariant
            cursor <= v@.len() + 1,
            v@.len() < scan_bound(),
            paren <= cursor,
            bracket <= cursor,
            important_from(v@, cursor as int, quote, paren as int, bracket as int)
                == important_from(v@, 0, None, 0, 0),
            match important_from(v@, 0, None, 0, 0) {
                Ok(Some(p)) => 0 <= p < v@.len(),
                _ => true,
            },
        decreases v@.len() + 2 - cursor,
    {
        let ch = v[cursor];
        if let Some(mark) = quote {
            if ch == '\\' {
                cursor = cursor + 2;
                continue;
            }
            if ch == mark {
                quote = None;
            }
            cursor += 1;
            continue;
        }
        if ch == '\'' || ch == '"' {
            quote = Some(ch);
        } else if ch == '(' {
            paren += 1;
        } else if ch == ')' {
            if paren == 0 {
                return Err(CssParseError::Invalid);
            }
            paren -= 1;
        } else if ch == '[' {
            bracket += 1;
        } else if ch == ']' {
            if bracket == 0 {
                return Err(CssParseError::Invalid);
            }
            bracket -= 1;
        } else if ch == '!' && paren == 0 && bracket == 0 {
            if important_follows(v, cursor) {
                return Ok(Some(cursor));
            }
        }
        cursor += 1;
    }
    if quote.is_some() || paren != 0 || bracket != 0 {
        Err(CssParseError::Invalid)
    } else {
        Ok(None)
    }
}

pub open spec fn name_char(c: char) -> bool {
    is_ascii_alnum(c) || c == '-'
}

pub open spec fn name_run(s: Seq<char>) -> nat
    decreases s.len(),
{
    if s.len() > 0 && name_char(s[0]) {
        1 + name_run(s.drop_first())
    } else {
        0
    }
}

/// The name of an at-rule prelude (`@media ...` gives `media`).
pub open spec fn spec_at_rule_name(p: Seq<char>) -> Option<Seq<char>> {
    if p.len() > 0 && p[0] == '@' && name_run(p.skip(1)) > 0 {
        Some(p.subrange(1, 1 + name_run(p.skip(1)) as int))
    } else {
        None
    }
}

pub proof fn lemma_name_run_le(s: Seq<char>)
    ensures
        name_run(s) <= s.len(),
    decreases s.len(),
{
    if s.len() > 0 && name_char(s[0]) {
        lemma_name_run_le(s.drop_first());
    }
}

pub fn at_rule_name(p: &[char]) -> (r: Option<Vec<char>>)
    ensures
        match r {
            Some(n) => spec_at_rule_name(p@) == Some(n@),
            None => spec_at_rule_name(p@) is None,
        },
{
    if p.len() == 0 || p[0] != '@' {
        return None;
    }
    let mut k: usize = 1;
    proof {
        assert(p@.skip(1).skip(0) == p@.skip(1));
    }
    while k < p.len() && (crate::text::ascii_alnum(p[k]) || p[k] == '-')
        invariant
            1 <= k <= p@.len(),
            name_run(p@.skip(1)) == (k - 1) + name_run(p@.skip(k as int)),
        decreases p@.len() - k,
    {
        proof {
            assert(p@.skip(k as int).drop_first() == p@.skip(k + 1));
        }
        k += 1;
    }
    if k == 1 {
        return None;
    }
    let mut name: Vec<char> = Vec::new();
    let mut j: usize = 1;
    while j < k
        invariant
            1 <= j <= k <= p@.len(),
            name@ == p@.subrange(1, j as int),
        decreases k - j,
    {
        name.push(p[j]);
        proof {
            assert(p@.subrange(1, j + 1) == p@.subrange(1, j as int).push(p@[j as int]));
        }
        j += 1;
    }
    Some(name)
}

/// Line (1-based) and column counters after reading `s[..i]` up to `offset`.
pub open spec fn line_columns_from(s: Seq<char>, i: int, offset: int, line: int, col: int, col16: int) -> (
    int,
    int,
    int,
)
    decreases offset - i,
{
    if i >= offset || i < 0 {
        (line, col, col16)
    } else if s[i] == '\r' {
        let next = if i + 1 < offset && s[i + 1] == '\n' {
            i + 2
        } else {
            i + 1
        };
        line_columns_from(s, next, offset, line + 1, 0, 0)
    } else if s[i] == '\n' {
        line_columns_from(s, i + 1, offset, line + 1, 0, 0)
    } else {
        line_columns_from(s, i + 1, offset, line, col + 1, col16 + utf16_width(s[i]))
    }
}

/// 1-based line, 0-based scalar column and 0-based UTF-16 column of `offset`.
pub open spec fn spec_line_columns(s: Seq<char>, offset: int) -> (int, int, int) {
    line_columns_from(s, 0, offset, 1, 0, 0)
}

pub fn line_columns(s: &[char], offset: usize) -> (r: Result<(u32, u32, u32), CssParseError>)
    requires
        offset <= s@.len() < 0x4000_0000,
    ensures
        r is Ok,
        r matches Ok(t) && spec_line_columns(s@, offset as int) == (t.0 as int, t.1 as int, t.2 as int),
{
    let mut line: u32 = 1;
    let mut col: u32 = 0;
    let mut col16: u32 = 0;
    let mut i: usize = 0;
    while i < offset
        invariant
            i <= offset + 1,
            offset <= s@.len() < 0x4000_0000,
            1 <= line <= i + 1,
            col <= i,
            col16 <= 2 * i,
            line_columns_from(s@, i as int, offset as int, line as int, col as int, col16 as int)
                == spec_line_columns(s@, offset as int),
        decreases offset + 2 - i,
    {
        let ch = s[i];
        if ch == '\r' {
            if i + 1 < offset && s[i + 1] == '\n' {
                i += 2;
            } else {
                i += 1;
            }
            line += 1;
            col = 0;
            col16 = 0;
        } else if ch == '\n' {
            i += 1;
            line += 1;
            col = 0;
            col16 = 0;
        } else {
            let w: u32 = if (ch as u32) < 0x10000 {
                1
            } else {
                2
            };
            i += 1;
            col += 1;
            col16 += w;
        }
    }
    Ok((line, col, col16))
}


pub open spec fn spec_normalize_prelude(v: Seq<char>) -> Result<Seq<char>, CssParseError> {
    match spec_strip_comments(v) {
        Err(e) => Err(e),
        Ok(stripped) => match spec_collapse_css_ws(stripped) {
            Err(e) => Err(e),
            Ok(n) => if byte_len(n) > 512 {
                Err(CssParseError::Limit)
            } else {
                Ok(n)
            },
        },
    }
}

pub fn normalize_prelude(v: &[char]) -> (r: Result<Vec<char>, CssParseError>)
    requires
        v@.len() < scan_bound(),
    ensures
        match r {
            Ok(n) => spec_normalize_prelude(v@) == Ok::<Seq<char>, CssParseError>(n@) && n@.len() <= v@.len(),
            Err(e) => spec_normalize_prelude(v@) == Err::<Seq<char>, CssParseError>(e),
        },
{
    let stripped = strip_comments(v)?;
    let normalized = collapse_css_ws(stripped.as_slice())?;
    if byte_len_within(normalized.as_slice(), 0, normalized.len(), 512).is_none() {
        proof {
            assert(normalized@.subrange(0, normalized@.len() as int) == normalized@);
        }
        return Err(CssParseError::Limit);
    }
    proof {
        assert(normalized@.subrange(0, normalized@.len() as int) == normalized@);
    }
    Ok(normalized)
}

/// The normalized selector: comments removed, whitespace collapsed, bounded, no bare backslash.
pub open spec fn spec_normalize_selector(v: Seq<char>) -> Option<Seq<char>> {
    match spec_strip_comments(v) {
        Err(_) => None,
        Ok(stripped) => match spec_collapse_css_ws(stripped) {
            Err(_) => None,
            Ok(n) => if n.len() == 0 || byte_len(n) > 256 || unquoted_backslash_from(n, 0, None, false) {
                None
            } else {
                Some(n)
            },
        },
    }
}

pub fn normalize_selector(v: &[char]) -> (r: Option<Vec<char>>)
    requires
        v@.len() < scan_bound(),
    ensures
        match r {
            Some(n) => spec_normalize_selector(v@) == Some(n@),
            None => spec_normalize_selector(v@) is None,
        },
{
    let stripped = match strip_comments(v) {
        Ok(x) => x,
        Err(_) => return None,
    };
    let normalized = match collapse_css_ws(stripped.as_slice()) {
        Ok(x) => x,
        Err(_) => return None,
    };
    proof {
        assert(normalized@.subrange(0, normalized@.len() as int) == normalized@);
    }
    if normalized.len() == 0 || byte_len_within(normalized.as_slice(), 0, normalized.len(), 256).is_none()
        || contains_unquoted_backslash(normalized.as_slice()) {
        return None;
    }
    Some(normalized)
}

pub open spec fn property_char(c: char) -> bool {
    is_ascii_alnum(c) || c == '-' || c == '_'
}

pub open spec fn spec_normalize_property(v: Seq<char>) -> Result<Seq<char>, CssParseError> {
    match spec_strip_comments(v) {
        Err(e) => Err(e),
        Ok(stripped) => {
            let t = trim(stripped);
            if t.len() == 0 || byte_len(t) > 64 || (exists|i: int|
                0 <= i < t.len() && (is_ws(t[i]) || is_control(t[i]))) || !(forall|i: int|
                0 <= i < t.len() ==> property_char(#[trigger] t[i])) {
                Err(CssParseError::Unsupported)
            } else {
                Ok(lower_seq(t))
            }
        },
    }
}

pub fn normalize_property(v: &[char]) -> (r: Result<Vec<char>, CssParseError>)
    requires
        v@.len() < scan_bound(),
    ensures
        match r {
            Ok(n) => spec_normalize_property(v@) == Ok::<Seq<char>, CssParseError>(n@),
            Err(e) => spec_normalize_property(v@) == Err::<Seq<char>, CssParseError>(e),
        },
{
    let stripped = strip_comments(v)?;
    let (a, b) = trim_bounds(stripped.as_slice());
    let t = &stripped.as_slice()[a..b];
    if t.len() == 0 || byte_len_within(t, 0, t.len(), 64).is_none() {
        proof {
            assert(t@.subrange(0, t@.len() as int) == t@);
        }
        return Err(CssParseError::Unsupported);
    }
    proof {
        assert(t@.subrange(0, t@.len() as int) == t@);
    }
    let mut i: usize = 0;
    while i < t.len()
        invariant
            i <= t@.len(),
            spec_strip_comments(v@) == Ok::<Seq<char>, CssParseError>(stripped@),
            t@ == trim(stripped@),
            t@.len() > 0,
            byte_len(t@) <= 64,
            forall|k: int| 0 <= k < i ==> !(is_ws(t@[k]) || is_control(t@[k])) && property_char(
                #[trigger] t@[k],
            ),
        decreases t@.len() - i,
    {
        let ch = t[i];
        if crate::text::unicode_ws(ch) || crate::text::control(ch) {
            proof {
                assert(is_ws(t@[i as int]) || is_control(t@[i as int]));
            }
            return Err(CssParseError::Unsupported);
        }
        if !(crate::text::ascii_alnum(ch) || ch == '-' || ch == '_') {
            proof {
                assert(!property_char(t@[i as int]));
            }
            return Err(CssParseError::Unsupported);
        }
        i += 1;
    }
    let mut out: Vec<char> = Vec::new();
    let mut j: usize = 0;
    while j < t.len()
        invariant
            j <= t@.len(),
            out@ == lower_seq(t@.take(j as int)),
        decreases t@.len() - j,
    {
        out.push(lower_char(t[j]));
        proof {
            assert(lower_seq(t@.take(j + 1)) == lower_seq(t@.take(j as int)).push(lower(t@[j as int])));
        }
        j += 1;
    }
    proof {
        assert(t@.take(t@.len() as int) == t@);
    }
    Ok(out)
}

pub open spec fn spec_normalize_value_and_priority(v: Seq<char>) -> Result<(Seq<char>, bool), CssParseError> {
    match spec_strip_comments(v) {
        Err(e) => Err(e),
        Ok(stripped) => match important_from(stripped, 0, None, 0, 0) {
            Err(e) => Err(e),
            Ok(priority) => {
                let body = match priority {
                    Some(index) => stripped.take(index),
                    None => stripped,
                };
                match spec_collapse_css_ws(body) {
                    Err(e) => Err(e),
                    Ok(n) => if byte_len(n) > 1024 {
                        Err(CssParseError::Limit)
                    } else {
                        Ok((n, priority is Some))
                    },
                }
            },
        },
    }
}

pub fn normalize_value_and_priority(v: &[char]) -> (r: Result<(Vec<char>, bool), CssParseError>)
    requires
        v@.len() < scan_bound(),
    ensures
        match r {
            Ok((n, imp)) => spec_normalize_value_and_priority(v@) == Ok::<(Seq<char>, bool), CssParseError>(
                (n@, imp),
            ),
            Err(e) => spec_normalize_value_and_priority(v@) == Err::<(Seq<char>, bool), CssParseError>(e),
        },
{
    let stripped = strip_comments(v)?;
    let priority = top_level_important_index(stripped.as_slice())?;
    let (body, important) = match priority {
        Some(index) => (&stripped.as_slice()[0..index], true),
        None => (stripped.as_slice(), false),
    };
    proof {
        match priority {
            Some(index) => {
                assert(body@ == stripped@.take(index as int));
            },
            None => {},
        }
    }
    let normalized = collapse_css_ws(body)?;
    proof {
        assert(normalized@.subrange(0, normalized@.len() as int) == normalized@);
    }
    if byte_len_within(normalized.as_slice(), 0, normalized.len(), 1024).is_none() {
        return Err(CssParseError::Limit);
    }
    Ok((normalized, important))
}

pub open spec fn spec_normalize_css_value(v: Seq<char>) -> Option<Seq<char>> {
    match spec_strip_comments(v) {
        Err(_) => None,
        Ok(stripped) => match spec_collapse_css_ws(stripped) {
            Err(_) => None,
            Ok(n) => if n.len() > 0 && byte_len(n) <= 1024 {
                Some(n)
            } else {
                None
            },
        },
    }
}

pub fn normalize_css_value(v: &[char]) -> (r: Option<Vec<char>>)
    requires
        v@.len() < scan_bound(),
    ensures
        match r {
            Some(n) => spec_normalize_css_value(v@) == Some(n@),
            None => spec_normalize_css_value(v@) is None,
        },
{
    let stripped = match strip_comments(v) {
        Ok(x) => x,
        Err(_) => return None,
    };
    let normalized = match collapse_css_ws(stripped.as_slice()) {
        Ok(x) => x,
        Err(_) => return None,
    };
    proof {
        assert(normalized@.subrange(0, normalized@.len() as int) == normalized@);
    }
    if normalized.len() > 0 && byte_len_within(normalized.as_slice(), 0, normalized.len(), 1024).is_some() {
        Some(normalized)
    } else {
        None
    }
}


/// One declaration located in a stylesheet, as its abstract value.
pub struct CssDeclView {
    pub selector: Seq<char>,
    pub property: Seq<char>,
    pub value: Seq<char>,
    pub important: bool,
    pub line: int,
    pub column: int,
    pub source_map_column: int,
}

/// A declaration found by the parser with its source coordinates.
#[derive(Debug, Clone, PartialEq, Eq)]
pub struct ParsedDeclaration {
    pub selector: String,
    pub property: String,
    pub value: String,
    pub important: bool,
    pub line: u32,
    pub column: u32,
    pub source_map_column: u32,
}

impl View for ParsedDeclaration {
    type V = CssDeclView;

    open spec fn view(&self) -> CssDeclView {
        CssDeclView {
            selector: self.selector@,
            property: self.property@,
            value: self.value@,
            important: self.important,
            line: self.line as int,
            column: self.column as int,
            source_map_column: self.source_map_column as int,
        }
    }
}

/// Counters that bound the work of one parse.
#[derive(Debug, Clone, Copy, PartialEq, Eq)]
pub struct ParseBudget {
    pub rules: usize,
    pub declarations: usize,
}

/// Abstract state of a parse: counters and declarations found so far.
pub struct ParseProgress {
    pub rules: int,
    pub declarations: int,
    pub out: Seq<CssDeclView>,
}

pub open spec fn views(out: Seq<ParsedDeclaration>) -> Seq<CssDeclView> {
    out.map_values(|d: ParsedDeclaration| d@)
}

pub open spec fn progress(budget: ParseBudget, out: Seq<ParsedDeclaration>) -> ParseProgress {
    ParseProgress { rules: budget.rules as int, declarations: budget.declarations as int, out: views(out) }
}

/// Declarations of the block body `s[c..end]` of a rule with selector `sel`.
pub open spec fn declarations_from(
    s: Seq<char>,
    c: int,
    end: int,
    sel: Seq<char>,
    st: ParseProgress,
) -> Result<ParseProgress, CssParseError>
    decreases end + 2 - c,
{
    if c >= end || c < 0 || end + 2 - c < 0 {
        Ok(st)
    } else {
        match skip_ws_from(s, c, end) {
            Err(e) => Err(e),
            Ok(c1) => {
                proof {
                    lemma_skip_ws_range(s, c, end);
                }
                if c1 >= end {
                    Ok(st)
                } else {
                    match declaration_end_from(s, c1, end, None, 0, 0) {
                        Err(e) => Err(e),
                        Ok(se) => {
                            proof {
                                lemma_declaration_end_range(s, c1, end, None, 0, 0);
                                lemma_colon_range(s, c1, se, None, 0, 0);
                            }
                            match colon_from(s, c1, se, None, 0, 0) {
                                Err(e) => Err(e),
                                Ok(None) => {
                                    if trim(s.subrange(c1, se)).len() == 0 {
                                        declarations_from(s, se + 1, end, sel, st)
                                    } else {
                                        Err(CssParseError::Unsupported)
                                    }
                                },
                                Ok(Some(colon)) => {
                                    match spec_normalize_property(s.subrange(c1, colon)) {
                                        Err(e) => Err(e),
                                        Ok(prop) => match spec_normalize_value_and_priority(
                                            s.subrange(colon + 1, se),
                                        ) {
                                            Err(e) => Err(e),
                                            Ok(vi) => match skip_ws_from(s, c1, colon) {
                                                Err(e) => Err(e),
                                                Ok(po) => {
                                                    if po >= colon {
                                                        Err(CssParseError::Invalid)
                                                    } else if st.declarations + 1 > 4096 {
                                                        Err(CssParseError::Limit)
                                                    } else {
                                                        let lc = spec_line_columns(s, po);
                                                        let d = CssDeclView {
                                                            selector: sel,
                                                            property: prop,
                                                            value: vi.0,
                                                            important: vi.1,
                                                            line: lc.0,
                                                            column: lc.1,
                                                            source_map_column: lc.2,
                                                        };
                                                        let next = if se < end {
                                                            se + 1
                                                        } else {
                                                            se
                                                        };
                                                        declarations_from(
                                                            s,
                                                            next,
                                                            end,
                                                            sel,
                                                            ParseProgress {
                                                                rules: st.rules,
                                                                declarations: st.declarations + 1,
                                                                out: st.out.push(d),
                                                            },
                                                        )
                                                    }
                                                },
                                            },
                                        },
                                    }
                                },
                            }
                        },
                    }
                }
            },
        }
    }
}

pub fn parse_declarations(
    s: &[char],
    start: usize,
    end: usize,
    selector: &[char],
    budget: &mut ParseBudget,
    output: &mut Vec<ParsedDeclaration>,
) -> (r: Result<(), CssParseError>)
    requires
        start <= end <= s@.len() < 0x4000_0000,
        old(budget).declarations <= 4096,
    ensures
        final(budget).declarations <= 4096,
        final(budget).rules == old(budget).rules,
        match r {
            Ok(()) => declarations_from(s@, start as int, end as int, selector@, progress(*old(budget), old(output)@))
                == Ok::<ParseProgress, CssParseError>(progress(*final(budget), final(output)@)),
            Err(e) => declarations_from(s@, start as int, end as int, selector@, progress(*old(budget), old(output)@))
                == Err::<ParseProgress, CssParseError>(e),
        },
{
    let ghost st0 = progress(*budget, output@);
    let mut cursor = start;
    while cursor < end
        invariant
            start <= cursor <= end,
            end <= s@.len() < 0x4000_0000,
            budget.declarations <= 4096,
            budget.rules == st0.rules,
            st0 == progress(*old(budget), old(output)@),
            declarations_from(s@, cursor as int, end as int, selector@, progress(*budget, output@))
                == declarations_from(s@, start as int, end as int, selector@, st0),
        decreases end - cursor,
    {
        skip_ws_comments(s, &mut cursor, end)?;
        if cursor >= end {
            return Ok(());
        }
        let segment_start = cursor;
        let segment_end = find_declaration_end(s, cursor, end)?;
        let colon = match find_top_level_colon(s, segment_start, segment_end)? {
            Some(colon) => colon,
            None => {
                if is_blank(&s[segment_start..segment_end]) {
                    cursor = segment_end + 1;
                    if cursor > end {
                        cursor = end;
                    }
                    proof {
                        assert(declarations_from(s@, (segment_end + 1) as int, end as int, selector@, progress(*budget, output@))
                            == declarations_from(s@, cursor as int, end as int, selector@, progress(*budget, output@)));
                    }
                    continue;
                }
                return Err(CssParseError::Unsupported);
            },
        };
        let property = normalize_property(&s[segment_start..colon])?;
        let (value, important) = normalize_value_and_priority(&s[colon + 1..segment_end])?;
        let property_offset = match first_non_ws_comment(s, segment_start, colon)? {
            Some(p) => p,
            None => return Err(CssParseError::Invalid),
        };
        let (line, column, source_map_column) = match line_columns(s, property_offset) {
            Ok(t) => t,
            Err(e) => return Err(e),
        };
        if budget.declarations + 1 > MAX_PARSED_DECLARATIONS {
            return Err(CssParseError::Limit);
        }
        budget.declarations = budget.declarations + 1;
        let decl = ParsedDeclaration {
            selector: crate::text::string_of(selector, 0, selector.len()),
            property: crate::text::string_of(property.as_slice(), 0, property.len()),
            value: crate::text::string_of(value.as_slice(), 0, value.len()),
            important,
            line,
            column,
            source_map_column,
        };
        proof {
            assert(selector@.subrange(0, selector@.len() as int) == selector@);
            assert(property@.subrange(0, property@.len() as int) == property@);
            assert(value@.subrange(0, value@.len() as int) == value@);
        }
        let ghost before = output@;
        output.push(decl);
        proof {
            assert(views(output@) == views(before).push(decl@));
        }
        cursor = if segment_end < end {
            segment_end + 1
        } else {
            segment_end
        };
    }
    Ok(())
}

pub open spec fn word_charset() -> Seq<char> {
    seq!['c', 'h', 'a', 'r', 's', 'e', 't']
}

pub open spec fn word_media() -> Seq<char> {
    seq!['m', 'e', 'd', 'i', 'a']
}

pub open spec fn word_supports() -> Seq<char> {
    seq!['s', 'u', 'p', 'p', 'o', 'r', 't', 's']
}

/// At-rules whose blocks hold no style declarations and are passed over.
pub open spec fn skipped_at_rule(n: Seq<char>) -> bool {
    n == seq!['f', 'o', 'n', 't', '-', 'f', 'a', 'c', 'e'] || n == seq![
        'k',
        'e',
        'y',
        'f',
        'r',
        'a',
        'm',
        'e',
        's',
    ] || n == seq!['-', 'w', 'e', 'b', 'k', 'i', 't', '-', 'k', 'e', 'y', 'f', 'r', 'a', 'm', 'e', 's']
        || n == seq!['p', 'a', 'g', 'e'] || n == seq!['p', 'r', 'o', 'p', 'e', 'r', 't', 'y']
        || n == seq!['c', 'o', 'u', 'n', 't', 'e', 'r', '-', 's', 't', 'y', 'l', 'e'] || n == seq![
        'f',
        'o',
        'n',
        't',
        '-',
        'f',
        'e',
        'a',
        't',
        'u',
        'r',
        'e',
        '-',
        'v',
        'a',
        'l',
        'u',
        'e',
        's',
    ]
}

fn is_skipped_at_rule(name: &[char]) -> (r: bool)
    ensures
        r == skipped_at_rule(lower_seq(name@)),
{
    let w1: [char; 9] = ['f', 'o', 'n', 't', '-', 'f', 'a', 'c', 'e'];
    let w2: [char; 9] = ['k', 'e', 'y', 'f', 'r', 'a', 'm', 'e', 's'];
    let w3: [char; 17] = ['-', 'w', 'e', 'b', 'k', 'i', 't', '-', 'k', 'e', 'y', 'f', 'r', 'a', 'm', 'e', 's'];
    let w4: [char; 4] = ['p', 'a', 'g', 'e'];
    let w5: [char; 8] = ['p', 'r', 'o', 'p', 'e', 'r', 't', 'y'];
    let w6: [char; 13] = ['c', 'o', 'u', 'n', 't', 'e', 'r', '-', 's', 't', 'y', 'l', 'e'];
    let w7: [char; 19] = ['f', 'o', 'n', 't', '-', 'f', 'e', 'a', 't', 'u', 'r', 'e', '-', 'v', 'a', 'l', 'u', 'e', 's'];
    proof {
        assert(w1@ =~= seq!['f', 'o', 'n', 't', '-', 'f', 'a', 'c', 'e']);
        assert(w2@ =~= seq!['k', 'e', 'y', 'f', 'r', 'a', 'm', 'e', 's']);
        assert(w3@ =~= seq!['-', 'w', 'e', 'b', 'k', 'i', 't', '-', 'k', 'e', 'y', 'f', 'r', 'a', 'm', 'e', 's']);
        assert(w4@ =~= seq!['p', 'a', 'g', 'e']);
        assert(w5@ =~= seq!['p', 'r', 'o', 'p', 'e', 'r', 't', 'y']);
        assert(w6@ =~= seq!['c', 'o', 'u', 'n', 't', 'e', 'r', '-', 's', 't', 'y', 'l', 'e']);
        assert(w7@ =~= seq!['f', 'o', 'n', 't', '-', 'f', 'e', 'a', 't', 'u', 'r', 'e', '-', 'v', 'a', 'l', 'u', 'e', 's']);
    }
    lower_seq_eq(name, &w1) || lower_seq_eq(name, &w2) || lower_seq_eq(name, &w3) || lower_seq_eq(name, &w4)
        || lower_seq_eq(name, &w5) || lower_seq_eq(name, &w6) || lower_seq_eq(name, &w7)
}

/// Declarations of the rule list `s[c..end]` nested `depth` levels deep.
pub open spec fn rules_from(s: Seq<char>, c: int, end: int, depth: int, st: ParseProgress) -> Result<
    ParseProgress,
    CssParseError,
>
    decreases end + 2 - c, 1int,
{
    if depth > 12 {
        Err(CssParseError::Limit)
    } else if c >= end || c < 0 || end + 2 - c < 0 {
        Ok(st)
    } else {
        match skip_ws_from(s, c, end) {
            Err(e) => Err(e),
            Ok(c1) => {
                proof {
                    lemma_skip_ws_range(s, c, end);
                }
                if c1 >= end {
                    Ok(st)
                } else {
                    rule_at(s, c1, end, depth, st)
                }
            },
        }
    }
}

/// Declarations of the rule that starts at `c1` and of the rules after it.
pub open spec fn rule_at(s: Seq<char>, c1: int, end: int, depth: int, st: ParseProgress) -> Result<
    ParseProgress,
    CssParseError,
>
    decreases end + 2 - c1, 0int,
{
    if c1 < 0 || c1 >= end {
        Ok(st)
    } else {
        proof {
            lemma_rule_boundary_range(s, c1, end, None, 0, 0);
        }
        match rule_boundary_from(s, c1, end, None, 0, 0) {
            Err(e) => Err(e),
            Ok(RuleBoundary::Semicolon(p)) => {
                match spec_normalize_prelude(s.subrange(c1, p as int)) {
                    Err(e) => Err(e),
                    Ok(pre) => {
                        if !(pre.len() > 0 && pre[0] == '@') {
                            Err(CssParseError::Unsupported)
                        } else if st.rules + 1 > 512 {
                            Err(CssParseError::Limit)
                        } else {
                            match spec_at_rule_name(pre) {
                                None => Err(CssParseError::Unsupported),
                                Some(name) => {
                                    if lower_seq(name) != word_charset() {
                                        Err(CssParseError::Unsupported)
                                    } else {
                                        rules_from(
                                            s,
                                            p + 1,
                                            end,
                                            depth,
                                            ParseProgress { rules: st.rules + 1, ..st },
                                        )
                                    }
                                },
                            }
                        }
                    },
                }
            },
            Ok(RuleBoundary::Block(open)) => {
                if st.rules + 1 > 512 {
                    Err(CssParseError::Limit)
                } else {
                    let st1 = ParseProgress { rules: st.rules + 1, ..st };
                    match brace_from(s, open + 1, end, None, 1) {
                        Err(e) => Err(e),
                        Ok(close) => {
                            proof {
                                lemma_brace_range(s, open + 1, end, None, 1);
                            }
                            match spec_normalize_prelude(s.subrange(c1, open as int)) {
                                Err(e) => Err(e),
                                Ok(pre) => {
                                    if pre.len() > 0 && pre[0] == '@' {
                                        match spec_at_rule_name(pre) {
                                            None => Err(CssParseError::Unsupported),
                                            Some(name) => {
                                                let n = lower_seq(name);
                                                if n == word_media() || n == word_supports() {
                                                    match rules_from(s, open + 1, close, depth + 1, st1) {
                                                        Err(e) => Err(e),
                                                        Ok(st2) => rules_from(s, close + 1, end, depth, st2),
                                                    }
                                                } else if skipped_at_rule(n) {
                                                    rules_from(s, close + 1, end, depth, st1)
                                                } else {
                                                    Err(CssParseError::Unsupported)
                                                }
                                            },
                                        }
                                    } else {
                                        match spec_normalize_selector(pre) {
                                            None => Err(CssParseError::Unsupported),
                                            Some(sel) => match declarations_from(s, open + 1, close, sel, st1) {
                                                Err(e) => Err(e),
                                                Ok(st2) => rules_from(s, close + 1, end, depth, st2),
                                            },
                                        }
                                    }
                                },
                            }
                        },
                    }
                }
            },
            Ok(RuleBoundary::End) => {
                if trim(s.subrange(c1, end)).len() == 0 {
                    Ok(st)
                } else {
                    Err(CssParseError::Invalid)
                }
            },
        }
    }
}

pub fn parse_rule_list(
    s: &[char],
    start: usize,
    end: usize,
    depth: usize,
    budget: &mut ParseBudget,
    output: &mut Vec<ParsedDeclaration>,
) -> (r: Result<(), CssParseError>)
    requires
        start <= end <= s@.len() < 0x4000_0000,
        old(budget).declarations <= 4096,
        old(budget).rules <= 512,
        depth <= 13,
    ensures
        final(budget).declarations <= 4096,
        final(budget).rules <= 512,
        match r {
            Ok(()) => rules_from(s@, start as int, end as int, depth as int, progress(*old(budget), old(output)@))
                == Ok::<ParseProgress, CssParseError>(progress(*final(budget), final(output)@)),
            Err(e) => rules_from(s@, start as int, end as int, depth as int, progress(*old(budget), old(output)@))
                == Err::<ParseProgress, CssParseError>(e),
        },
    decreases end - start, 1int,
{
    if depth > MAX_PARSE_DEPTH {
        return Err(CssParseError::Limit);
    }
    let ghost st0 = progress(*budget, output@);
    let mut cursor = start;
    while cursor < end
        invariant
            start <= cursor <= end,
            end <= s@.len() < 0x4000_0000,
            depth <= 12,
            budget.declarations <= 4096,
            budget.rules <= 512,
            st0 == progress(*old(budget), old(output)@),
            rules_from(s@, cursor as int, end as int, depth as int, progress(*budget, output@))
                == rules_from(s@, start as int, end as int, depth as int, st0),
        decreases end - cursor,
    {
        skip_ws_comments(s, &mut cursor, end)?;
        if cursor >= end {
            return Ok(());
        }
        cursor = parse_rule_at(s, cursor, end, depth, budget, output)?;
    }
    Ok(())
}

/// Parses the rule that starts at `rule_start`; returns the position after it.
pub fn parse_rule_at(
    s: &[char],
    rule_start: usize,
    end: usize,
    depth: usize,
    budget: &mut ParseBudget,
    output: &mut Vec<ParsedDeclaration>,
) -> (r: Result<usize, CssParseError>)
    requires
        rule_start < end <= s@.len() < 0x4000_0000,
        old(budget).declarations <= 4096,
        old(budget).rules <= 512,
        depth <= 12,
    ensures
        final(budget).declarations <= 4096,
        final(budget).rules <= 512,
        match r {
            Ok(next) => rule_start < next <= end && rule_at(s@, rule_start as int, end as int, depth as int, progress(*old(budget), old(output)@))
                == rules_from(s@, next as int, end as int, depth as int, progress(*final(budget), final(output)@)),
            Err(e) => rule_at(s@, rule_start as int, end as int, depth as int, progress(*old(budget), old(output)@))
                == Err::<ParseProgress, CssParseError>(e),
        },
    decreases end - rule_start, 0int,
{
    let boundary = find_rule_boundary(s, rule_start, end)?;
    proof {
        lemma_rule_boundary_range(s@, rule_start as int, end as int, None, 0, 0);
    }
    match boundary {
        RuleBoundary::Semicolon(position) => {
            let prelude = normalize_prelude(&s[rule_start..position])?;
            if !(prelude.len() > 0 && prelude[0] == '@') {
                return Err(CssParseError::Unsupported);
            }
            if budget.rules + 1 > MAX_PARSED_RULES {
                return Err(CssParseError::Limit);
            }
            let name = match at_rule_name(prelude.as_slice()) {
                Some(name) => name,
                None => return Err(CssParseError::Unsupported),
            };
            let charset: [char; 7] = ['c', 'h', 'a', 'r', 's', 'e', 't'];
            proof {
                assert(charset@ =~= word_charset());
            }
            if !lower_seq_eq(name.as_slice(), &charset) {
                return Err(CssParseError::Unsupported);
            }
            budget.rules = budget.rules + 1;
            Ok(position + 1)
        },
        RuleBoundary::Block(open) => {
            if budget.rules + 1 > MAX_PARSED_RULES {
                return Err(CssParseError::Limit);
            }
            budget.rules = budget.rules + 1;
            let close = find_matching_brace(s, open, end)?;
            let prelude = normalize_prelude(&s[rule_start..open])?;
            if prelude.len() > 0 && prelude[0] == '@' {
                let name = match at_rule_name(prelude.as_slice()) {
                    Some(name) => name,
                    None => return Err(CssParseError::Unsupported),
                };
                let media: [char; 5] = ['m', 'e', 'd', 'i', 'a'];
                let supports: [char; 8] = ['s', 'u', 'p', 'p', 'o', 'r', 't', 's'];
                proof {
                    assert(media@ =~= word_media());
                    assert(supports@ =~= word_supports());
                }
                if lower_seq_eq(name.as_slice(), &media) || lower_seq_eq(name.as_slice(), &supports) {
                    parse_rule_list(s, open + 1, close, depth + 1, budget, output)?;
                } else if !is_skipped_at_rule(name.as_slice()) {
                    return Err(CssParseError::Unsupported);
                }
            } else {
                let selector = match normalize_selector(prelude.as_slice()) {
                    Some(selector) => selector,
                    None => return Err(CssParseError::Unsupported),
                };
                parse_declarations(s, open + 1, close, selector.as_slice(), budget, output)?;
            }
            Ok(close + 1)
        },
        RuleBoundary::End => {
            if is_blank(&s[rule_start..end]) {
                return Ok(end);
            }
            Err(CssParseError::Invalid)
        },
    }
}

pub open spec fn spec_parse_stylesheet(s: Seq<char>) -> Result<Seq<CssDeclView>, CssParseError> {
    if byte_len(s) > 524288 {
        Err(CssParseError::Limit)
    } else {
        match rules_from(s, 0, s.len() as int, 0, ParseProgress { rules: 0, declarations: 0, out: Seq::empty() }) {
            Err(e) => Err(e),
            Ok(st) => Ok(st.out),
        }
    }
}

pub proof fn lemma_byte_len_ge_len(s: Seq<char>)
    ensures
        byte_len(s) >= s.len(),
    decreases s.len(),
{
    if s.len() > 0 {
        lemma_byte_len_ge_len(s.drop_last());
    }
}

/// Parses a stylesheet into the declarations it holds, with their source coordinates.
pub fn parse_stylesheet(source: &str) -> (r: Result<Vec<ParsedDeclaration>, CssParseError>)
    ensures
        match r {
            Ok(out) => spec_parse_stylesheet(source@) == Ok::<Seq<CssDeclView>, CssParseError>(views(out@)),
            Err(e) => spec_parse_stylesheet(source@) == Err::<Seq<CssDeclView>, CssParseError>(e),
        },
{
    let s = chars_of(source);
    if byte_len_within(s.as_slice(), 0, s.len(), MAX_CSS_FILE_BYTES).is_none() {
        proof {
            assert(s@.subrange(0, s@.len() as int) == s@);
        }
        return Err(CssParseError::Limit);
    }
    proof {
        assert(s@.subrange(0, s@.len() as int) == s@);
        lemma_byte_len_ge_len(s@);
    }
    let mut output: Vec<ParsedDeclaration> = Vec::new();
    let mut budget = ParseBudget { rules: 0, declarations: 0 };
    proof {
        assert(views(output@) =~= Seq::<CssDeclView>::empty());
    }
    parse_rule_list(s.as_slice(), 0, s.len(), 0, &mut budget, &mut output)?;
    Ok(output)
}

} // verus!
