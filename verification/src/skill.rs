//! The instructions for agents that use the command line.

use vstd::prelude::*;

verus! {

/// The instructions for agents that use the command line.
pub const AGENT_SKILL: &'static str = "---\nname: alx\ndescription: Manage local tasks, artifacts, and review annotations with the alx CLI. Use when an agent must read task context, store work products, or process artifact feedback in alx.\n---\n\n# alx\n\nUse `alx` as a local, persistent task artifact store. Commands write data to stdout and errors to stderr.\n\n## Start a task\n\nRead the complete task context before work:\n\n```bash\nalx task context TASK_ID_OR_UUID\n```\n\nCreate a task only when requested:\n\n```bash\nprintf '%s\\n' 'Task instructions' | alx task create TASK_ID\n```\n\nTask creation prints the task UUID. Use `alx task context` as the preferred broad read. Use `alx task read TASK_ID_OR_UUID` as the narrow source of truth for the task body. Use `alx task list` and `alx task search QUERY` to find tasks. Add `--json` to list and search commands when structured output is useful.\n\nUpdate a task body only when the task instructions change:\n\n```bash\nalx task update TASK_ID_OR_UUID < REVISED_FILE\n```\n\nUpdate has no stdout on success. The task UUID and id stay the same.\n\nArchive a completed task only when requested:\n\n```bash\nalx task archive TASK_ID_OR_UUID\nalx task list --archived\n```\n\nPermanent deletion also removes all artifacts and annotations. Run it only when the user explicitly requests permanent deletion:\n\n```bash\nalx task delete TASK_ID_OR_UUID --confirm\n```\n\n## Manage artifacts\n\nCreate an artifact from a file or pipeline:\n\n```bash\nalx artifact create TASK_ID_OR_UUID TYPE --name descriptive-name.md < FILE\n```\n\nWhen creating an artifact, provide a short descriptive filename with `--name` when there is an obvious one. Use the artifact UUID for all subsequent operations. Creation prints the artifact UUID.\n\n```bash\nalx artifact read ARTIFACT_UUID\nalx artifact update ARTIFACT_UUID < REVISED_FILE\nalx artifact rename ARTIFACT_UUID new-name.md\nalx artifact list TASK_ID_OR_UUID\nalx artifact list TASK_ID_OR_UUID --type TYPE --json\n```\n\nArtifact types are arbitrary non-empty strings. Multiple artifacts can have the same type or name. The UUID is the canonical identity.\n\n## Process feedback\n\nGet agent-ready review instructions before revising an artifact:\n\n```bash\nalx artifact review ARTIFACT_UUID\n```\n\nUse `alx artifact feedback ARTIFACT_UUID` for raw unresolved annotation output. Add `--json` when exact annotation fields or offsets are needed. Resolve an annotation only after its feedback has been addressed or deliberately declined:\n\n```bash\nalx annotation resolve ANNOTATION_UUID\n```\n\nList annotations with `alx annotation list ARTIFACT_UUID`. Add `--all` to include resolved annotations.\n\nCreate feedback only when requested:\n\n```bash\nprintf '%s' 'Comment text' | alx annotation create ARTIFACT_UUID comment\n```\n\nSupported annotation kinds are `comment`, `question`, `scratch`, and `good`. If text offsets are used, supply both `--start-offset` and `--end-offset`.\n\n## Export\n\nWrite a readable file tree for backup, inspection, or leaving `alx`:\n\n```bash\nalx dump ./export\nalx dump ARE-1175 ./export\n```\n\nThe last argument is always the target path; an optional task key before it limits the dump to that task. Without a task key, all tasks are dumped, including archived ones. Each task gets `TARGET/<task id>/task.md` and one file per artifact under `TARGET/<task id>/<type>/<artifact name>`. Annotations are not exported. Add `--zip` to write one zip archive at the target path instead of a directory tree:\n\n```bash\nalx dump --zip ./export.zip\n```\n\nDump has no stdout and does not modify the database.\n";

} // verus!
