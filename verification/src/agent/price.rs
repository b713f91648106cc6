//! What a call to a model costs.
//!
//! Where the vendor reports the cost, that is the cost. Else it is estimated from the list
//! prices, so that no listed provider can be used around the daily budget.
use vstd::prelude::*;
use crate::task::contract::Usd;
use crate::text;
use crate::types::TokenUsage;

verus! {

/// A list price: tenths of a dollar for a million tokens.
#[derive(Clone, Copy, Debug, PartialEq, Eq, Structural)]
pub struct Price {
    pub input: u32,
    pub output: u32,
}

/// What a call to a model costs.
#[derive(Clone, Copy, Debug, PartialEq, Eq, Structural)]
pub enum CostEstimate {
    /// As the vendor reports it.
    Reported(Usd),
    /// By the list price: so many ten-millionths of a dollar.
    Listed { price: Price, ten_millionths: u64 },
}

/// The list price of a provider. What is not on the list costs nothing; the models of the host
/// itself are not on it.
pub open spec fn list_price(provider: Seq<char>) -> Price {
    if provider == "anthropic"@ {
        Price { input: 30, output: 150 }
    } else if provider == "openai"@ {
        Price { input: 25, output: 100 }
    } else if provider == "openrouter"@ {
        Price { input: 5, output: 15 }
    } else if provider == "gemini"@ {
        Price { input: 3, output: 25 }
    } else if provider == "groq"@ {
        Price { input: 2, output: 5 }
    } else {
        Price { input: 0, output: 0 }
    }
}

/// The list price of a provider.
pub fn price_of(provider: &str) -> (r: Price)
    ensures
        r == list_price(provider@),
{
    if text::same(provider, "anthropic") {
        Price { input: 30, output: 150 }
    } else if text::same(provider, "openai") {
        Price { input: 25, output: 100 }
    } else if text::same(provider, "openrouter") {
        Price { input: 5, output: 15 }
    } else if text::same(provider, "gemini") {
        Price { input: 3, output: 25 }
    } else if text::same(provider, "groq") {
        Price { input: 2, output: 5 }
    } else {
        Price { input: 0, output: 0 }
    }
}

/// What so many tokens cost at a price, in ten-millionths of a dollar.
pub open spec fn listed_cost(price: Price, usage: TokenUsage) -> int {
    usage.input_tokens * price.input + usage.output_tokens * price.output
}

/// What a call costs: what the vendor reports, whatever the list says, and else what the list
/// says.
pub open spec fn cost_of(provider: Seq<char>, usage: TokenUsage) -> CostEstimate {
    match usage.actual_cost_usd {
        Some(reported) => CostEstimate::Reported(reported),
        None => CostEstimate::Listed {
            price: list_price(provider),
            ten_millionths: listed_cost(list_price(provider), usage) as u64,
        },
    }
}

/// What a call costs.
pub fn estimate_cost_usd(provider: &str, usage: &TokenUsage) -> (r: CostEstimate)
    ensures
        r == cost_of(provider@, *usage),
        0 <= listed_cost(list_price(provider@), *usage) <= u64::MAX,
{
    let price: Price = price_of(provider);
    let input: u64 = usage.input_tokens as u64;
    let output: u64 = usage.output_tokens as u64;
    assert(0 <= input * price.input <= 0xffff_ffff * 150) by (nonlinear_arith)
        requires
            0 <= input <= 0xffff_ffff,
            0 <= price.input <= 150,
    ;
    assert(0 <= output * price.output <= 0xffff_ffff * 150) by (nonlinear_arith)
        requires
            0 <= output <= 0xffff_ffff,
            0 <= price.output <= 150,
    ;
    match usage.actual_cost_usd {
        Some(reported) => CostEstimate::Reported(reported),
        None => CostEstimate::Listed {
            price,
            ten_millionths: input * (price.input as u64) + output * (price.output as u64),
        },
    }
}

/// The provider is on the price list.
pub open spec fn listed(provider: Seq<char>) -> bool {
    provider == "anthropic"@ || provider == "openai"@ || provider == "openrouter"@ || provider
        == "gemini"@ || provider == "groq"@
}

/// No provider on the list is free: a call that used any tokens costs something.
pub proof fn no_listed_provider_is_free(provider: Seq<char>, usage: TokenUsage)
    requires
        listed(provider),
        usage.input_tokens > 0 || usage.output_tokens > 0,
    ensures
        listed_cost(list_price(provider), usage) > 0,
{
    let price = list_price(provider);
    assert(price.input > 0 && price.output > 0);
    assert(usage.input_tokens * price.input >= usage.input_tokens) by (nonlinear_arith)
        requires
            price.input > 0,
            usage.input_tokens >= 0,
    ;
    assert(usage.output_tokens * price.output >= usage.output_tokens) by (nonlinear_arith)
        requires
            price.output > 0,
            usage.output_tokens >= 0,
    ;
}

/// What runs on the host itself costs nothing, unless it reports a cost.
pub proof fn the_host_itself_is_free(usage: TokenUsage)
    ensures
        listed_cost(list_price("ollama"@), usage) == 0,
{
    reveal_strlit("ollama");
    reveal_strlit("anthropic");
    reveal_strlit("openai");
    reveal_strlit("openrouter");
    reveal_strlit("gemini");
    reveal_strlit("groq");
    assert("ollama"@[0] == 'o');
    assert("ollama"@[1] == 'l');
    assert("openai"@[1] == 'p');
    assert("anthropic"@[0] == 'a');
    assert("gemini"@[0] == 'g');
    assert("groq"@[0] == 'g');
    assert("openrouter"@[1] == 'p');
}

/// What a call costs goes by its tokens: at the list price of its provider for each of them, what
/// was written at another price than what was read.
pub proof fn a_call_costs_by_its_tokens(provider: Seq<char>, usage: TokenUsage)
    requires
        usage.actual_cost_usd is None,
    ensures
        cost_of(provider, usage) matches CostEstimate::Listed { price, ten_millionths } && {
            let read = usage.input_tokens as int;
            let written = usage.output_tokens as int;
            &&& provider == "anthropic"@ ==> ten_millionths == 30 * read + 150 * written
            &&& provider == "openai"@ ==> ten_millionths == 25 * read + 100 * written
            &&& provider == "openrouter"@ ==> ten_millionths == 5 * read + 15 * written
            &&& provider == "gemini"@ ==> ten_millionths == 3 * read + 25 * written
            &&& provider == "groq"@ ==> ten_millionths == 2 * read + 5 * written
            &&& !listed(provider) ==> ten_millionths == 0
            &&& ten_millionths == read * price.input + written * price.output
        },
{
    reveal_strlit("anthropic");
    reveal_strlit("openai");
    reveal_strlit("openrouter");
    reveal_strlit("gemini");
    reveal_strlit("groq");
    assert("anthropic"@[0] == 'a' && "openai"@[0] == 'o' && "openrouter"@[0] == 'o' && "gemini"@[0]
        == 'g' && "groq"@[0] == 'g');
    assert("openai"@[4] == 'a' && "openrouter"@[4] == 'r');
    assert("gemini"@[1] == 'e' && "groq"@[1] == 'r');
    let price = list_price(provider);
    let read = usage.input_tokens as int;
    let written = usage.output_tokens as int;
    assert(0 <= read * price.input <= 0xffff_ffff * 150) by (nonlinear_arith)
        requires
            0 <= read <= 0xffff_ffff,
            0 <= price.input <= 150,
    ;
    assert(0 <= written * price.output <= 0xffff_ffff * 150) by (nonlinear_arith)
        requires
            0 <= written <= 0xffff_ffff,
            0 <= price.output <= 150,
    ;
    lemma_at(read, price.input as int);
    lemma_at(written, price.output as int);
    assert(listed_cost(price, usage) == read * price.input + written * price.output);
}

/// What so many tokens cost at each of the prices.
proof fn lemma_at(n: int, price: int)
    ensures
        price == 0 ==> n * price == 0,
        price == 2 ==> n * price == 2 * n,
        price == 3 ==> n * price == 3 * n,
        price == 5 ==> n * price == 5 * n,
        price == 15 ==> n * price == 15 * n,
        price == 25 ==> n * price == 25 * n,
        price == 30 ==> n * price == 30 * n,
        price == 100 ==> n * price == 100 * n,
        price == 150 ==> n * price == 150 * n,
{
}

/// A call that uses more tokens does not cost less, and two calls cost what they cost apart.
pub proof fn costs_add_up(price: Price, one: TokenUsage, other: TokenUsage, both: TokenUsage)
    requires
        both.input_tokens == one.input_tokens + other.input_tokens,
        both.output_tokens == one.output_tokens + other.output_tokens,
    ensures
        listed_cost(price, both) == listed_cost(price, one) + listed_cost(price, other),
        listed_cost(price, both) >= listed_cost(price, one),
{
    let (a, b, c, d) = (
        one.input_tokens as int,
        one.output_tokens as int,
        other.input_tokens as int,
        other.output_tokens as int,
    );
    let (x, y) = (price.input as int, price.output as int);
    assert((a + c) * x == a * x + c * x) by (nonlinear_arith);
    assert((b + d) * y == b * y + d * y) by (nonlinear_arith);
    assert(c * x >= 0 && d * y >= 0) by (nonlinear_arith)
        requires
            c >= 0,
            d >= 0,
            x >= 0,
            y >= 0,
    ;
}

/// A cost that the vendor reports is the cost, whatever the list says.
pub proof fn a_reported_cost_stands(provider: Seq<char>, usage: TokenUsage)
    ensures
        usage.actual_cost_usd matches Some(reported) ==> cost_of(provider, usage)
            == CostEstimate::Reported(reported),
{
}

} // verus!
