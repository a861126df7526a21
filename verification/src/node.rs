//! Calls of the node, and what it hands out: block templates.

use crate::config::NodeConfig;
use crate::hexcode;
use crate::json::{last_member_with_a_key_is_found, Json, JsonView};
use crate::target::compact_fits;
use crate::text::{parse_hex, parsed_hex};
use vstd::prelude::*;

verus! {

/// A transaction of a block template.
#[derive(Debug, Clone)]
pub struct GbtTransaction {
    pub data: String,
    pub txid: String,
    /// The id with witness data.
    pub hash: String,
    pub fee: i64,
    pub weight: u64,
}

/// What `getblocktemplate` answers.
#[derive(Debug, Clone)]
pub struct BlockTemplate {
    pub version: u32,
    pub previousblockhash: String,
    pub transactions: Vec<GbtTransaction>,
    pub coinbasevalue: u64,
    pub bits: String,
    pub height: u32,
    pub curtime: u32,
    /// The ready-made script of the witness commitment.
    pub witness_commitment: Option<String>,
    pub community_address: Option<String>,
    pub community_value: Option<u64>,
}

/// The characters of an optional text.
pub open spec fn text_of(text: Option<String>) -> Option<Seq<char>> {
    match text {
        Some(t) => Some(t@),
        None => None,
    }
}

/// The number that the compact target text stands for, where it is one.
pub open spec fn bits_number(text: Seq<char>) -> Option<nat> {
    parsed_hex(text, u32::MAX as nat)
}

impl GbtTransaction {
    /// The data are hexadecimal, and the id with witness data is 32 bytes of it.
    pub open spec fn readable(self) -> bool {
        &&& hexcode::decoded(self.data@) is Some
        &&& hexcode::decoded(self.hash@) matches Some(id) && id.len() == 32
    }

    /// Whether data and id can be read.
    pub fn is_readable(&self) -> (readable: bool)
        ensures
            readable == self.readable(),
    {
        match (hexcode::decode(self.data.as_str()), hexcode::decode(self.hash.as_str())) {
            (Some(_data), Some(id)) => id.len() == 32,
            _ => false,
        }
    }
}

impl BlockTemplate {
    /// Every hexadecimal field can be read, and the compact target fits 32 bytes.
    pub open spec fn readable(self) -> bool {
        &&& bits_number(self.bits@) matches Some(bits) && compact_fits(bits as u32)
        &&& hexcode::decoded(self.previousblockhash@) is Some
        &&& text_of(self.witness_commitment) matches Some(script) ==> hexcode::decoded(
            script,
        ) is Some
        &&& forall|i: int|
            0 <= i < self.transactions@.len() ==> (#[trigger] self.transactions@[i]).readable()
    }

    /// Whether a job can be made from the template.
    pub fn is_readable(&self) -> (readable: bool)
        ensures
            readable == self.readable(),
    {
        match parse_hex(self.bits.as_str(), u32::MAX as u64) {
            Some(bits) => {
                if bits / 0x0100_0000 > 32 {
                    return false;
                }
            },
            None => {
                return false;
            },
        }
        if hexcode::decode(self.previousblockhash.as_str()).is_none() {
            return false;
        }
        if let Some(script) = &self.witness_commitment {
            if hexcode::decode(script.as_str()).is_none() {
                return false;
            }
        }
        let total: usize = self.transactions.len();
        let mut i: usize = 0;
        while i < total
            invariant
                i <= total,
                total == self.transactions@.len(),
                forall|j: int|
                    0 <= j < i ==> (#[trigger] self.transactions@[j]).readable(),
            decreases total - i,
        {
            if !self.transactions[i].is_readable() {
                return false;
            }
            i = i + 1;
        }
        true
    }
}

/// How the node is reached.
#[derive(Debug, Clone)]
pub struct NodeClient {
    pub url: String,
    pub user: String,
    pub pass: String,
}

/// What is sent to the node to call a method.
pub open spec fn rpc_body(method: Seq<char>, params: JsonView) -> JsonView {
    JsonView::Object(
        seq![
            ("jsonrpc"@, JsonView::Str("1.0"@)),
            ("id"@, JsonView::Uint(1)),
            ("method"@, JsonView::Str(method)),
            ("params"@, params),
        ],
    )
}

/// The call that asks for a block template.
pub open spec fn template_call() -> JsonView {
    rpc_body(
        "getblocktemplate"@,
        JsonView::Array(
            seq![
                JsonView::Object(
                    seq![
                        (
                            "rules"@,
                            JsonView::Array(
                                seq![JsonView::Str("segwit"@), JsonView::Str("taproot"@)],
                            ),
                        ),
                    ],
                ),
            ],
        ),
    )
}

/// The call that hands in a block.
pub open spec fn submit_call(block_hex: Seq<char>) -> JsonView {
    rpc_body("submitblock"@, JsonView::Array(seq![JsonView::Str(block_hex)]))
}

/// What the node answered: its error where there is one that is not null, else the result.
pub open spec fn rpc_answer(response: JsonView) -> Result<JsonView, JsonView> {
    match response.member("error"@) {
        Some(error) => if error == JsonView::Null {
            Ok(response.field("result"@))
        } else {
            Err(error)
        },
        None => Ok(response.field("result"@)),
    }
}

fn build_rpc(method: &str, params: Json) -> (body: Json)
    ensures
        body@ == rpc_body(method@, params@),
{
    let body: Json = Json::object().and("jsonrpc", Json::string("1.0")).and(
        "id",
        Json::Uint(1),
    ).and("method", Json::string(method)).and("params", params);
    assert(body@->Object_0 =~= rpc_body(method@, params@)->Object_0);
    body
}

impl NodeClient {
    pub fn new(cfg: &NodeConfig) -> (client: NodeClient)
        ensures
            client.url@ == cfg.rpc_url@,
            client.user@ == cfg.rpc_user@,
            client.pass@ == cfg.rpc_pass@,
    {
        NodeClient {
            url: cfg.rpc_url.clone(),
            user: cfg.rpc_user.clone(),
            pass: cfg.rpc_pass.clone(),
        }
    }

    /// The call that asks for a block template.
    pub fn get_block_template(&self) -> (body: Json)
        ensures
            body@ == template_call(),
    {
        let rules: Json = Json::array().then_item(Json::string("segwit")).then_item(
            Json::string("taproot"),
        );
        assert(rules@->Array_0 =~= seq![JsonView::Str("segwit"@), JsonView::Str("taproot"@)]);
        let options: Json = Json::object().and("rules", rules);
        assert(options@->Object_0 =~= seq![("rules"@, rules@)]);
        let params: Json = Json::array().then_item(options);
        assert(params@->Array_0 =~= seq![options@]);
        build_rpc("getblocktemplate", params)
    }

    /// The call that hands in a block.
    pub fn submit_block(&self, block_hex: &str) -> (body: Json)
        ensures
            body@ == submit_call(block_hex@),
    {
        let params: Json = Json::array().then_item(Json::string(block_hex));
        assert(params@->Array_0 =~= seq![JsonView::Str(block_hex@)]);
        build_rpc("submitblock", params)
    }
}

/// Reads what the node answered: the result, or its error where there is one that is not null.
pub fn read_answer(response: &Json) -> (answer: Result<Json, Json>)
    ensures
        match answer {
            Ok(result) => rpc_answer(response@) == Ok::<JsonView, JsonView>(result@),
            Err(error) => rpc_answer(response@) == Err::<JsonView, JsonView>(error@),
        },
{
    if let Some(error) = response.get("error") {
        if !error.is_null() {
            return Err(error.copy());
        }
    }
    match response.get("result") {
        Some(result) => Ok(result.copy()),
        None => Ok(Json::Null),
    }
}

/// Reads the result of handing in a block: null where the node took it, else the reason why not.
pub fn read_submission(result: Json) -> (outcome: Result<(), Json>)
    ensures
        match outcome {
            Ok(_) => result@ == JsonView::Null,
            Err(reason) => result@ != JsonView::Null && reason@ == result@,
        },
{
    if result.is_null() {
        Ok(())
    } else {
        Err(result)
    }
}

proof fn lemma_call_keys_differ()
    ensures
        "jsonrpc"@ != "id"@,
        "jsonrpc"@ != "method"@,
        "jsonrpc"@ != "params"@,
        "id"@ != "method"@,
        "id"@ != "params"@,
        "method"@ != "params"@,
{
    reveal_strlit("jsonrpc");
    reveal_strlit("id");
    reveal_strlit("method");
    reveal_strlit("params");
    assert("jsonrpc"@.len() == 7 && "id"@.len() == 2);
    assert("method"@.len() == 6 && "params"@.len() == 6);
    assert("method"@[0] == 'm' && "params"@[0] == 'p');
}

/// A call names its protocol version, its id, its method and its parameters. A template is asked
/// for with the rules for witnesses and taproot; a block is handed in as the one parameter.
pub proof fn calls_name_method_and_parameters(
    method: Seq<char>,
    params: JsonView,
    block_hex: Seq<char>,
)
    ensures
        rpc_body(method, params).field("jsonrpc"@) == JsonView::Str("1.0"@),
        rpc_body(method, params).field("id"@) == JsonView::Uint(1),
        rpc_body(method, params).field("method"@) == JsonView::Str(method),
        rpc_body(method, params).field("params"@) == params,
        ({
            let call = template_call();
            let asked = call.field("params"@);
            let rules = asked.item(0).field("rules"@);
            &&& call.field("method"@) == JsonView::Str("getblocktemplate"@)
            &&& asked is Array && asked->Array_0.len() == 1
            &&& rules is Array && rules->Array_0.len() == 2
            &&& rules.item(0) == JsonView::Str("segwit"@)
            &&& rules.item(1) == JsonView::Str("taproot"@)
        }),
        ({
            let call = submit_call(block_hex);
            let handed = call.field("params"@);
            &&& call.field("method"@) == JsonView::Str("submitblock"@)
            &&& handed is Array && handed->Array_0.len() == 1
            &&& handed.item(0) == JsonView::Str(block_hex)
        }),
{
    lemma_call_keys_differ();
    lemma_call(method, params);
    let template = template_call();
    let asked = template->Object_0[3].1;
    lemma_call("getblocktemplate"@, asked);
    last_member_with_a_key_is_found(asked->Array_0[0]->Object_0, 0);
    let handed = submit_call(block_hex)->Object_0[3].1;
    lemma_call("submitblock"@, handed);
}

proof fn lemma_call(method: Seq<char>, params: JsonView)
    ensures
        rpc_body(method, params).field("jsonrpc"@) == JsonView::Str("1.0"@),
        rpc_body(method, params).field("id"@) == JsonView::Uint(1),
        rpc_body(method, params).field("method"@) == JsonView::Str(method),
        rpc_body(method, params).field("params"@) == params,
{
    lemma_call_keys_differ();
    let pairs = rpc_body(method, params)->Object_0;
    last_member_with_a_key_is_found(pairs, 0);
    last_member_with_a_key_is_found(pairs, 1);
    last_member_with_a_key_is_found(pairs, 2);
    last_member_with_a_key_is_found(pairs, 3);
}

/// What the node answers is an error exactly where its error member is there and not null;
/// otherwise it is the result member, null where that is missing.
pub proof fn errors_of_the_node_are_seen(response: JsonView)
    ensures
        response.member("error"@) is None || response.member("error"@) == Some(JsonView::Null)
            ==> rpc_answer(response) == Ok::<JsonView, JsonView>(response.field("result"@)),
        response.member("error"@) is Some && response.member("error"@) != Some(JsonView::Null)
            ==> rpc_answer(response) == Err::<JsonView, JsonView>(response.field("error"@)),
{
}

} // verus!
