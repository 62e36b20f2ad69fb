use vstd::prelude::*;

use crate::prompt::{answer_outcome, CliPrompt, PromptError, Resolution};
use crate::render::{plan_outcome, render_plan, substitutions, RenderError};
use crate::specification::{PlaceholderItem, TemplateConfiguration};
use crate::tree::{load_local, local_outcome, FileTree, LoadError, LocalListing, RemoteOrigin};
use crate::write::WriteSession;
use vstd::string::{StrSliceExecFns, StringExecFns};
use vstd::utf8::encode_utf8;

verus! {

/// Where a template comes from.
pub enum Origin {
    Local(String),
    Remote(RemoteOrigin),
}

/// What a generation is asked to do: load a template from an origin, and write
/// the rendered project under the destination.
pub struct GenerateProjectInput {
    pub origin: Origin,
    pub destination_path: String,
}

/// A project to create from the template at `path`.
pub struct CreateProjectInput {
    pub path: String,
}

/// The first error of a generation, from whichever stage it came.
pub enum GenerateError {
    EmptyPath,
    Load(LoadError),
    Specification(crate::specification::SpecificationError),
    Prompt(PromptError),
    Render(RenderError),
}

/// Creates projects from templates, under one conflict policy.
pub struct Service {
    /// Replace files already at the destination; otherwise such a file fails
    /// the generation.
    pub overwrite: bool,
}

impl Service {
    pub fn new(overwrite: bool) -> (r: Service)
        ensures
            r.overwrite == overwrite,
    {
        Service { overwrite }
    }

    /// Loads the template at the input's path from what walking it found.
    pub fn create_project(&self, input: &CreateProjectInput, listing: LocalListing) -> (r: Result<FileTree, GenerateError>)
        ensures
            input.path@.len() == 0 ==> r is Err && r->Err_0 is EmptyPath,
            input.path@.len() > 0 ==> match r {
                Ok(tree) => local_outcome(input.path@, listing, Ok(tree)),
                Err(GenerateError::Load(e)) => local_outcome(input.path@, listing, Err(e)),
                _ => false,
            },
            r is Ok ==> r->Ok_0.wf(),
    {
        if input.path.as_str().is_empty() {
            return Err(GenerateError::EmptyPath);
        }
        match load_local(input.path.clone(), listing) {
            Ok(tree) => Ok(tree),
            Err(e) => Err(GenerateError::Load(e)),
        }
    }

    /// Renders a configuration and starts writing it out under this service's
    /// conflict policy.
    pub fn template_project(&self, configuration: &TemplateConfiguration) -> (r: Result<WriteSession, RenderError>)
        ensures
            plan_outcome(
                configuration.file_list.entries(),
                substitutions(configuration.template_specification.placeholders@),
                match r {
                    Ok(s) => Ok(s.plan),
                    Err(e) => Err(e),
                },
            ),
            r is Ok ==> r->Ok_0.wf() && r->Ok_0.written == 0 && r->Ok_0.failure is None
                && r->Ok_0.overwrite == self.overwrite,
    {
        match render_plan(configuration) {
            Ok(plan) => Ok(WriteSession::new(plan, self.overwrite)),
            Err(e) => Err(e),
        }
    }
}

/// A generation between loading and rendering: the placeholders are answered
/// one at a time, in order.
pub struct GenerateService {
    pub service: Service,
    pub prompt: CliPrompt,
    pub configuration: TemplateConfiguration,
    /// The placeholder to be answered next; all are answered when it reaches
    /// their number.
    pub next_question: usize,
}

impl GenerateService {
    pub open spec fn wf(&self) -> bool {
        self.next_question <= self.configuration.template_specification.placeholders@.len()
    }

    pub fn new(service: Service, configuration: TemplateConfiguration) -> (r: GenerateService)
        ensures
            r.wf(),
            r.service == service,
            r.configuration == configuration,
            r.next_question == 0,
    {
        GenerateService { service, prompt: CliPrompt {  }, configuration, next_question: 0 }
    }

    /// The placeholder to be answered next, once all are answered none.
    pub fn pending_question(&self) -> (r: Option<&PlaceholderItem>)
        requires
            self.wf(),
        ensures
            r is None <==> self.next_question == self.configuration.template_specification.placeholders@.len(),
            r is Some ==> *r->Some_0 == self.configuration.template_specification.placeholders@[self.next_question as int],
    {
        let items = &self.configuration.template_specification.placeholders;
        if self.next_question < items.len() {
            Some(&items[self.next_question])
        } else {
            None
        }
    }

    /// Resolves the pending placeholder from the line typed for it, and moves on
    /// to the next unless the line was refused.
    pub fn answer(&mut self, response: &str) -> (r: Result<Resolution, PromptError>)
        requires
            old(self).wf(),
            old(self).next_question < old(self).configuration.template_specification.placeholders@.len(),
        ensures
            final(self).wf(),
            final(self).service == old(self).service,
            final(self).configuration.file_list == old(self).configuration.file_list,
            ({
                let i = old(self).next_question as int;
                let before = old(self).configuration.template_specification.placeholders@;
                let after = final(self).configuration.template_specification.placeholders@;
                &&& after.len() == before.len()
                &&& forall|k: int| 0 <= k < before.len() && k != i ==> after[k] == before[k]
                &&& answer_outcome(before[i], encode_utf8(response@), after[i], r)
                &&& final(self).next_question == if r is Ok { i + 1 } else { i }
            }),
    {
        let i = self.next_question;
        let n = self.configuration.template_specification.placeholders.len();
        let r = self.prompt.get_answer(&mut self.configuration.template_specification.placeholders[i], response);
        if r.is_ok() {
            assert(i < n);
            self.next_question = i + 1;
        }
        r
    }

    /// Answers the pending placeholders in order, the `k`-th from `responses[k]`
    /// (an empty line where the responses run out), stops at the first response
    /// that is refused, and otherwise renders the configuration.
    pub fn generate_project(&mut self, responses: &Vec<String>) -> (r: Result<WriteSession, GenerateError>)
        requires
            old(self).wf(),
        ensures
            final(self).wf(),
            final(self).service == old(self).service,
            final(self).configuration.file_list == old(self).configuration.file_list,
            old(self).next_question <= final(self).next_question,
            ({
                let start = old(self).next_question as int;
                let stop = final(self).next_question as int;
                let before = old(self).configuration.template_specification.placeholders@;
                let after = final(self).configuration.template_specification.placeholders@;
                &&& after.len() == before.len()
                &&& forall|k: int| 0 <= k < start ==> after[k] == before[k]
                &&& forall|k: int| stop < k < before.len() ==> after[k] == before[k]
                &&& forall|k: int|
                    start <= k < stop ==> accepted(before[k], encode_utf8(response_at(responses@, k - start)), #[trigger] after[k])
                &&& match r {
                    Err(GenerateError::Prompt(e)) => stop < before.len() && answer_outcome(
                        before[stop],
                        encode_utf8(response_at(responses@, stop - start)),
                        after[stop],
                        Err(e),
                    ),
                    Err(GenerateError::Render(e)) => stop == before.len() && plan_outcome(
                        final(self).configuration.file_list.entries(),
                        substitutions(after),
                        Err(e),
                    ),
                    Ok(session) => stop == before.len() && plan_outcome(
                        final(self).configuration.file_list.entries(),
                        substitutions(after),
                        Ok(session.plan),
                    ) && session.wf() && session.written == 0 && session.failure is None
                        && session.overwrite == old(self).service.overwrite,
                    _ => false,
                }
            }),
    {
        let ghost start = self.next_question as int;
        let ghost before = self.configuration.template_specification.placeholders@;
        let empty = String::new();
        let mut j: usize = 0;
        while self.next_question < self.configuration.template_specification.placeholders.len()
            invariant
                self.wf(),
                self.service == old(self).service,
                self.configuration.file_list == old(self).configuration.file_list,
                start == old(self).next_question,
                before == old(self).configuration.template_specification.placeholders@,
                empty@.len() == 0,
                self.next_question == start + j,
                ({
                    let stop = self.next_question as int;
                    let after = self.configuration.template_specification.placeholders@;
                    &&& after.len() == before.len()
                    &&& forall|k: int| 0 <= k < start ==> after[k] == before[k]
                    &&& forall|k: int| stop <= k < before.len() ==> after[k] == before[k]
                    &&& forall|k: int|
                        start <= k < stop ==> accepted(before[k], encode_utf8(response_at(responses@, k - start)), #[trigger] after[k])
                }),
            decreases before.len() - self.next_question,
        {
            let response = if j < responses.len() {
                responses[j].as_str()
            } else {
                empty.as_str()
            };
            let ghost i = self.next_question as int;
            match self.answer(response) {
                Ok(a) => {
                    assert(answer_outcome(before[i], encode_utf8(response_at(responses@, i - start)),
                        self.configuration.template_specification.placeholders@[i], Ok(a)));
                },
                Err(e) => {
                    return Err(GenerateError::Prompt(e));
                },
            }
            j = j + 1;
        }
        match self.render() {
            Ok(session) => Ok(session),
            Err(e) => Err(GenerateError::Render(e)),
        }
    }

    /// Renders the configuration with the answers given so far.
    pub fn render(&self) -> (r: Result<WriteSession, RenderError>)
        ensures
            plan_outcome(
                self.configuration.file_list.entries(),
                substitutions(self.configuration.template_specification.placeholders@),
                match r {
                    Ok(s) => Ok(s.plan),
                    Err(e) => Err(e),
                },
            ),
            r is Ok ==> r->Ok_0.wf() && r->Ok_0.written == 0 && r->Ok_0.failure is None
                && r->Ok_0.overwrite == self.service.overwrite,
    {
        self.service.template_project(&self.configuration)
    }
}

/// The response was taken for the placeholder, which moved from `before` to `after`.
pub open spec fn accepted(before: PlaceholderItem, response: Seq<u8>, after: PlaceholderItem) -> bool {
    exists|a: Resolution| #[trigger] answer_outcome(before, response, after, Ok(a))
}

/// The line that answers the `k`-th pending placeholder: an empty one where the
/// responses run out.
pub open spec fn response_at(responses: Seq<String>, k: int) -> Seq<char> {
    if 0 <= k < responses.len() {
        responses[k]@
    } else {
        Seq::empty()
    }
}

/// The text with every trailing `/` taken off.
pub open spec fn strip_trailing_slashes(s: Seq<char>) -> Seq<char>
    decreases s.len(),
{
    if s.len() > 0 && s.last() == '/' {
        strip_trailing_slashes(s.drop_last())
    } else {
        s
    }
}

/// The text with every trailing `/` taken off.
pub fn trim_trailing_slashes(s: &str) -> (r: String)
    ensures
        r@ == strip_trailing_slashes(s@),
{
    let mut n: usize = s.unicode_len();
    assert(s@.subrange(0, n as int) =~= s@);
    while n > 0 && s.get_char(n - 1) == '/'
        invariant
            n <= s@.len(),
            strip_trailing_slashes(s@) == strip_trailing_slashes(s@.subrange(0, n as int)),
        decreases n,
    {
        assert(s@.subrange(0, n as int).drop_last() =~= s@.subrange(0, n - 1));
        n = n - 1;
    }
    String::from_str(s.substring_char(0, n))
}

/// The create command: a template from a local directory, or from a branch of
/// a remote repository.
pub enum CreateSubCommand {
    Local { template_path: String, destination_path: String },
    Git { remote_path: String, branch: String, destination_path: String },
}

pub struct Create {
    pub sub_command: CreateSubCommand,
}

impl Create {
    /// The generation the command asks for; trailing separators of local paths
    /// are ignored.
    pub fn to_input(&self) -> (r: GenerateProjectInput)
        ensures
            match self.sub_command {
                CreateSubCommand::Local { template_path, destination_path } => r.origin is Local
                    && r.origin->Local_0@ == strip_trailing_slashes(template_path@)
                    && r.destination_path@ == strip_trailing_slashes(destination_path@),
                CreateSubCommand::Git { remote_path, branch, destination_path } => r.origin is Remote
                    && r.origin->Remote_0.remote_url@ == remote_path@
                    && r.origin->Remote_0.branch@ == branch@
                    && r.destination_path@ == strip_trailing_slashes(destination_path@),
            },
    {
        match &self.sub_command {
            CreateSubCommand::Local { template_path, destination_path } => GenerateProjectInput {
                origin: Origin::Local(trim_trailing_slashes(template_path.as_str())),
                destination_path: trim_trailing_slashes(destination_path.as_str()),
            },
            CreateSubCommand::Git { remote_path, branch, destination_path } => GenerateProjectInput {
                origin: Origin::Remote(RemoteOrigin { remote_url: remote_path.clone(), branch: branch.clone() }),
                destination_path: trim_trailing_slashes(destination_path.as_str()),
            },
        }
    }
}

} // verus!
