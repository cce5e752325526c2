use vstd::prelude::*;
use vstd::string::StringExecFns;

use crate::response::ToolResponseData;

verus! {

/// Declares anyhow::Error, the error a failed tool call reports; only its
/// chain of causes is read, through `cause_messages`.
#[verifier::external_type_specification]
#[verifier::external_body]
pub struct ExAnyhowError(anyhow::Error);

/// Relies on anyhow::Error::chain: it visits the error itself first, then each
/// of its sources; each is turned into its message.
#[verifier::external_body]
fn cause_messages(err: &anyhow::Error) -> (r: Vec<String>)
    ensures
        r.len() >= 1,
{
    err.chain().map(|cause| cause.to_string()).collect()
}

/// What a tool call returned.
#[derive(Clone, Debug, PartialEq, Eq)]
pub struct ToolResult {
    /// Name of the tool that ran.
    pub name: String,
    /// Identifier of the call, when the caller gave one.
    pub call_id: Option<String>,
    /// Text handed back by the tool, or the report of its failure.
    pub content: String,
    /// Whether the call failed.
    pub is_error: bool,
    /// Structured data about the response, if any.
    pub data: Option<ToolResponseData>,
}

/// One line of a failure report.
pub open spec fn cause_line(c: Seq<char>) -> Seq<char> {
    "Caused by: "@ + c + seq!['\n']
}

/// The lines for the first `n` causes.
pub open spec fn cause_lines(causes: Seq<Seq<char>>, n: nat) -> Seq<char>
    decreases n,
{
    if n == 0 {
        Seq::empty()
    } else {
        cause_lines(causes, (n - 1) as nat) + cause_line(causes[n - 1])
    }
}

/// The report of a failure whose chain of causes is `causes`, outermost first.
pub open spec fn failure_report(causes: Seq<Seq<char>>) -> Seq<char> {
    "\nERROR:\n"@ + cause_lines(causes, causes.len())
}

/// The text of a result that carries no structured data.
pub open spec fn xml_report(name: Seq<char>, content: Seq<char>, is_error: bool) -> Seq<char> {
    let body = "<![CDATA["@ + content + "]]>"@;
    "<forge_tool_result><forge_tool_name>"@ + name + "</forge_tool_name>"@ + (if is_error {
        "<e>"@ + body + "</e>"@
    } else {
        "<success>"@ + body + "</success>"@
    }) + "</forge_tool_result>"@
}

/// The report of a failure whose chain of causes is `causes`, outermost first.
pub fn failure_text(causes: &Vec<String>) -> (r: String)
    ensures
        r@ == failure_report(causes@.map_values(|c: String| c@)),
{
    let ghost cs = causes@.map_values(|c: String| c@);
    let mut r = String::new();
    r.append("\nERROR:\n");
    let mut i: usize = 0;
    while i < causes.len()
        invariant
            i <= causes.len(),
            cs == causes@.map_values(|c: String| c@),
            r@ == "\nERROR:\n"@ + cause_lines(cs, i as nat),
        decreases causes.len() - i,
    {
        r.append("Caused by: ");
        r.append(causes[i].as_str());
        r.append("\n");
        proof {
            reveal_strlit("\n");
            assert("\n"@ =~= seq!['\n']);
        }
        assert(r@ =~= "\nERROR:\n"@ + cause_lines(cs, (i + 1) as nat));
        i = i + 1;
    }
    r
}

impl ToolResult {
    /// A successful, empty result of the tool `name`.
    pub fn new(name: String) -> (r: ToolResult)
        ensures
            r.name == name,
            r.call_id is None,
            r.content@ == Seq::<char>::empty(),
            !r.is_error,
            r.data is None,
    {
        ToolResult { name, call_id: None, content: String::new(), is_error: false, data: None }
    }

    /// The same result for the tool `name`.
    pub fn name(self, name: String) -> (r: ToolResult)
        ensures
            r == (ToolResult { name, ..self }),
    {
        ToolResult { name, ..self }
    }

    /// The same result with the call identifier `call_id`.
    pub fn call_id(self, call_id: String) -> (r: ToolResult)
        ensures
            r == (ToolResult { call_id: Some(call_id), ..self }),
    {
        ToolResult { call_id: Some(call_id), ..self }
    }

    /// The same result marked as a success with the text `content`.
    pub fn success(self, content: String) -> (r: ToolResult)
        ensures
            r == (ToolResult { content, is_error: false, ..self }),
    {
        ToolResult { content, is_error: false, ..self }
    }

    /// The same result marked as a failure whose chain of causes, outermost
    /// first, is `causes`.
    pub fn failure_with_causes(self, causes: &Vec<String>) -> (r: ToolResult)
        ensures
            r.content@ == failure_report(causes@.map_values(|c: String| c@)),
            r.is_error,
            r.name == self.name,
            r.call_id == self.call_id,
            r.data == self.data,
    {
        let content = failure_text(causes);
        ToolResult { content, is_error: true, ..self }
    }

    /// The same result marked as a failure, reporting each cause of `err`.
    pub fn failure(self, err: anyhow::Error) -> (r: ToolResult)
        ensures
            r.is_error,
            exists|causes: Seq<Seq<char>>|
                causes.len() >= 1 && #[trigger] failure_report(causes) == r.content@,
            r.name == self.name,
            r.call_id == self.call_id,
            r.data == self.data,
    {
        let causes = cause_messages(&err);
        let r = self.failure_with_causes(&causes);
        assert(failure_report(causes@.map_values(|c: String| c@)) == r.content@);
        r
    }

    /// The same result with the structured data `data`.
    pub fn with_data(self, data: ToolResponseData) -> (r: ToolResult)
        ensures
            r == (ToolResult { data: Some(data), ..self }),
    {
        ToolResult { data: Some(data), ..self }
    }

    /// The same result with the text `content` and the structured data `data`.
    pub fn with_frontmatter_response(self, data: ToolResponseData, content: String) -> (r:
        ToolResult)
        ensures
            r == (ToolResult { content, data: Some(data), ..self }),
    {
        ToolResult { content, data: Some(data), ..self }
    }

    /// The text of this result without its structured data: the tool's name
    /// and the content, tagged as a success or an error.
    pub fn to_xml(&self) -> (r: String)
        ensures
            r@ == xml_report(self.name@, self.content@, self.is_error),
    {
        let mut r = String::new();
        r.append("<forge_tool_result><forge_tool_name>");
        r.append(self.name.as_str());
        r.append("</forge_tool_name>");
        if self.is_error {
            r.append("<e>");
        } else {
            r.append("<success>");
        }
        r.append("<![CDATA[");
        r.append(self.content.as_str());
        r.append("]]>");
        if self.is_error {
            r.append("</e>");
        } else {
            r.append("</success>");
        }
        r.append("</forge_tool_result>");
        assert(r@ =~= xml_report(self.name@, self.content@, self.is_error));
        r
    }
}

} // verus!
