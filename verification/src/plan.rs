//! The test plan: what to run, how fast and for how long.
use crate::map::copy_strings;
use crate::map::StringMap;
use crate::text::to_uppercase;
use vstd::prelude::*;

verus! {

// ── Load profile ──────────────────────────────────────────────────────────────

/// The shape of the load over time.
#[derive(Clone, Copy, Debug, PartialEq, Eq, Structural)]
pub enum Mode {
    /// Full rate from the start.
    Constant,
    /// Linear growth over the ramp-up window, then the full rate.
    Ramp,
    /// Equal windows with a rate that grows from window to window.
    Step,
    /// Thirds: baseline, peak, baseline.
    Spike,
}

impl Default for Mode {
    fn default() -> (m: Mode)
        ensures
            m == Mode::Ramp,
    {
        Mode::Ramp
    }
}

// ── HTTP methods ──────────────────────────────────────────────────────────────

/// The HTTP methods that a task can use.
#[derive(Clone, Copy, Debug, PartialEq, Eq, Structural)]
pub enum HttpMethod {
    Get,
    Post,
    Put,
    Patch,
    Delete,
}

/// The method that an upper-case name stands for.
pub open spec fn method_named(name: Seq<char>) -> Option<HttpMethod> {
    if name == "GET"@ {
        Some(HttpMethod::Get)
    } else if name == "POST"@ {
        Some(HttpMethod::Post)
    } else if name == "PUT"@ {
        Some(HttpMethod::Put)
    } else if name == "PATCH"@ {
        Some(HttpMethod::Patch)
    } else if name == "DELETE"@ {
        Some(HttpMethod::Delete)
    } else {
        None
    }
}

/// The upper-case name of a method.
pub open spec fn method_name(m: HttpMethod) -> Seq<char> {
    match m {
        HttpMethod::Get => "GET"@,
        HttpMethod::Post => "POST"@,
        HttpMethod::Put => "PUT"@,
        HttpMethod::Patch => "PATCH"@,
        HttpMethod::Delete => "DELETE"@,
    }
}

impl HttpMethod {
    /// The method with this upper-case name.
    pub fn from_name(name: &str) -> (r: Option<HttpMethod>)
        ensures
            r == method_named(name@),
    {
        if crate::text::same_text(name, "GET") {
            Some(HttpMethod::Get)
        } else if crate::text::same_text(name, "POST") {
            Some(HttpMethod::Post)
        } else if crate::text::same_text(name, "PUT") {
            Some(HttpMethod::Put)
        } else if crate::text::same_text(name, "PATCH") {
            Some(HttpMethod::Patch)
        } else if crate::text::same_text(name, "DELETE") {
            Some(HttpMethod::Delete)
        } else {
            None
        }
    }

    /// The method that `text` names in any letter case. The error holds the
    /// message for a name that is not known.
    pub fn parse(text: &str) -> (r: Result<HttpMethod, String>)
        ensures
            r is Ok <==> method_named(crate::text::uppercase(text@)) is Some,
            r matches Ok(m) ==> method_named(crate::text::uppercase(text@)) == Some(m),
            r matches Err(e) ==> e@ == "Unknown HTTP method: "@ + crate::text::uppercase(text@),
            crate::text::is_ascii(text@) ==> crate::text::uppercase(text@)
                == crate::text::ascii_uppercase(text@),
    {
        let name = to_uppercase(text);
        match HttpMethod::from_name(name.as_str()) {
            Some(m) => Ok(m),
            None => {
                let mut e = "Unknown HTTP method: ".to_string();
                e.append(name.as_str());
                Err(e)
            },
        }
    }

    /// The upper-case name of the method.
    pub fn as_str(&self) -> (r: &'static str)
        ensures
            r@ == method_name(*self),
    {
        match self {
            HttpMethod::Get => "GET",
            HttpMethod::Post => "POST",
            HttpMethod::Put => "PUT",
            HttpMethod::Patch => "PATCH",
            HttpMethod::Delete => "DELETE",
        }
    }
}

/// Reading a method's own name gives the method back.
pub proof fn method_name_round_trip(m: HttpMethod)
    ensures
        method_named(method_name(m)) == Some(m),
{
    reveal_strlit("GET");
    reveal_strlit("POST");
    reveal_strlit("PUT");
    reveal_strlit("PATCH");
    reveal_strlit("DELETE");
    assert("GET"@.len() == 3 && "PUT"@.len() == 3 && "POST"@.len() == 4);
    assert("PATCH"@.len() == 5 && "DELETE"@.len() == 6);
    assert("GET"@[0] == 'G' && "PUT"@[0] == 'P');
}

/// Each of the five methods goes by its upper-case name, and no other text names
/// one.
pub proof fn methods_go_by_their_names(name: Seq<char>)
    ensures
        method_named(name) == Some(HttpMethod::Get) <==> name == "GET"@,
        method_named(name) == Some(HttpMethod::Post) <==> name == "POST"@,
        method_named(name) == Some(HttpMethod::Put) <==> name == "PUT"@,
        method_named(name) == Some(HttpMethod::Patch) <==> name == "PATCH"@,
        method_named(name) == Some(HttpMethod::Delete) <==> name == "DELETE"@,
{
    reveal_strlit("GET");
    reveal_strlit("POST");
    reveal_strlit("PUT");
    reveal_strlit("PATCH");
    reveal_strlit("DELETE");
    assert("GET"@.len() == 3 && "PUT"@.len() == 3 && "POST"@.len() == 4);
    assert("PATCH"@.len() == 5 && "DELETE"@.len() == 6);
    assert("GET"@[0] == 'G' && "PUT"@[0] == 'P');
}

// ── Defaults ──────────────────────────────────────────────────────────────────

/// The weight of a task whose plan names none.
pub fn default_weight() -> (w: u32)
    ensures
        w == 1,
{
    1
}

/// The method of a task whose plan names none.
pub fn default_method() -> (m: String)
    ensures
        m@ == "GET"@,
{
    "GET".to_string()
}

/// The number of load steps of a plan that names none.
pub fn default_steps() -> (n: u64)
    ensures
        n == 5,
{
    5
}

// ── Plan types ────────────────────────────────────────────────────────────────

/// A task of the plan: one kind of request and its share of the load.
#[derive(Debug)]
pub struct TaskPlan {
    pub name: String,
    pub weight: u32,
    pub url: String,
    pub method: HttpMethod,
    pub headers: StringMap<String>,
    pub body_template: Option<String>,
}

/// The headers of one virtual user that were obtained before the test.
#[derive(Debug)]
pub struct VUserConfig {
    /// Task name to the headers of that task.
    pub task_headers: StringMap<StringMap<String>>,
    /// URLs that take the place of those of the tasks of these names.
    pub task_urls: StringMap<String>,
}

/// The whole test plan.
#[derive(Debug)]
pub struct ScenarioPlan {
    pub name: String,
    pub rps: u64,
    pub duration_secs: u64,
    pub ramp_up_secs: u64,
    pub mode: Mode,
    pub target_url: String,
    pub tasks: Vec<TaskPlan>,
    /// The scenario file, where the scenario has Python callbacks.
    pub scenario_file: Option<String>,
    pub scenario_class: Option<String>,
    pub n_vusers: Option<u64>,
    /// Headers and URLs of virtual users for distributed runs.
    pub vuser_configs: Vec<VUserConfig>,
    /// Number of load steps of the step mode.
    pub steps: u64,
}

// ── Models ────────────────────────────────────────────────────────────────────

/// What a task plan says.
#[verifier::ext_equal]
pub struct TaskModel {
    pub name: Seq<char>,
    pub weight: u32,
    pub url: Seq<char>,
    pub method: HttpMethod,
    pub headers: Map<Seq<char>, Seq<char>>,
    pub body_template: Option<Seq<char>>,
}

/// What a virtual user's configuration says.
#[verifier::ext_equal]
pub struct ConfigModel {
    pub task_headers: Map<Seq<char>, Map<Seq<char>, Seq<char>>>,
    pub task_urls: Map<Seq<char>, Seq<char>>,
}

/// What a plan says.
#[verifier::ext_equal]
pub struct PlanModel {
    pub name: Seq<char>,
    pub rps: u64,
    pub duration_secs: u64,
    pub ramp_up_secs: u64,
    pub mode: Mode,
    pub target_url: Seq<char>,
    pub tasks: Seq<TaskModel>,
    pub scenario_file: Option<Seq<char>>,
    pub scenario_class: Option<Seq<char>>,
    pub n_vusers: Option<u64>,
    pub vuser_configs: Seq<ConfigModel>,
    pub steps: u64,
}

/// The text of an optional string.
pub open spec fn text_option(s: Option<String>) -> Option<Seq<char>> {
    match s {
        Some(t) => Some(t@),
        None => None,
    }
}

/// The header texts of each task.
pub open spec fn header_maps(m: Map<Seq<char>, StringMap<String>>) -> Map<
    Seq<char>,
    Map<Seq<char>, Seq<char>>,
> {
    m.map_values(|h: StringMap<String>| crate::map::text_map(h@))
}

impl View for TaskPlan {
    type V = TaskModel;

    open spec fn view(&self) -> TaskModel {
        TaskModel {
            name: self.name@,
            weight: self.weight,
            url: self.url@,
            method: self.method,
            headers: crate::map::text_map(self.headers@),
            body_template: text_option(self.body_template),
        }
    }
}

impl View for VUserConfig {
    type V = ConfigModel;

    open spec fn view(&self) -> ConfigModel {
        ConfigModel {
            task_headers: header_maps(self.task_headers@),
            task_urls: crate::map::text_map(self.task_urls@),
        }
    }
}

impl View for ScenarioPlan {
    type V = PlanModel;

    open spec fn view(&self) -> PlanModel {
        PlanModel {
            name: self.name@,
            rps: self.rps,
            duration_secs: self.duration_secs,
            ramp_up_secs: self.ramp_up_secs,
            mode: self.mode,
            target_url: self.target_url@,
            tasks: self.tasks@.map_values(|t: TaskPlan| t@),
            scenario_file: text_option(self.scenario_file),
            scenario_class: text_option(self.scenario_class),
            n_vusers: self.n_vusers,
            vuser_configs: self.vuser_configs@.map_values(|c: VUserConfig| c@),
            steps: self.steps,
        }
    }
}

// ── Copies ────────────────────────────────────────────────────────────────────

/// A copy of an optional string.
pub fn copy_text(s: &Option<String>) -> (r: Option<String>)
    ensures
        r == *s,
{
    match s {
        Some(t) => Some(t.clone()),
        None => None,
    }
}

/// A copy of the headers of each task.
pub fn copy_header_maps(m: &StringMap<StringMap<String>>) -> (r: StringMap<StringMap<String>>)
    ensures
        header_maps(r@) == header_maps(m@),
{
    let mut r: StringMap<StringMap<String>> = StringMap::new();
    let n: usize = m.len();
    let mut i: usize = 0;
    let ghost texts = header_maps(m@);
    proof {
        assert(header_maps(r@) =~= texts.restrict(m.keys().take(0).to_set()));
    }
    while i < n
        invariant
            n == m.keys().len(),
            m.listed(),
            i <= n,
            texts == header_maps(m@),
            header_maps(r@) == texts.restrict(m.keys().take(i as int).to_set()),
        decreases n - i,
    {
        let ghost before = r@;
        let headers = copy_strings(m.value_at(i));
        let ghost h = headers;
        r.insert(m.key_at(i).clone(), headers);
        proof {
            let k = m.keys()[i as int];
            crate::map::lemma_restrict_step(texts, m.keys(), i as int);
            assert(header_maps(before.insert(k, h)) =~= header_maps(before).insert(
                k,
                crate::map::text_map(h@),
            ));
        }
        i = i + 1;
    }
    proof {
        assert(m.keys().take(n as int) =~= m.keys());
        assert(texts.restrict(m.keys().to_set()) =~= texts);
    }
    r
}

impl TaskPlan {
    /// A copy of the task.
    pub fn copied(&self) -> (r: TaskPlan)
        ensures
            r@ == self@,
    {
        TaskPlan {
            name: self.name.clone(),
            weight: self.weight,
            url: self.url.clone(),
            method: self.method,
            headers: copy_strings(&self.headers),
            body_template: copy_text(&self.body_template),
        }
    }
}

impl VUserConfig {
    /// A copy of the configuration.
    pub fn copied(&self) -> (r: VUserConfig)
        ensures
            r@ == self@,
    {
        VUserConfig {
            task_headers: copy_header_maps(&self.task_headers),
            task_urls: copy_strings(&self.task_urls),
        }
    }
}

/// Copies of the tasks.
pub fn copy_tasks(tasks: &Vec<TaskPlan>) -> (r: Vec<TaskPlan>)
    ensures
        r@.map_values(|t: TaskPlan| t@) == tasks@.map_values(|t: TaskPlan| t@),
{
    let mut r: Vec<TaskPlan> = Vec::new();
    let mut i: usize = 0;
    while i < tasks.len()
        invariant
            i <= tasks@.len(),
            r@.len() == i,
            forall|j: int| 0 <= j < i ==> (#[trigger] r@[j])@ == tasks@[j]@,
        decreases tasks@.len() - i,
    {
        r.push(tasks[i].copied());
        i = i + 1;
    }
    proof {
        assert(r@.map_values(|t: TaskPlan| t@) =~= tasks@.map_values(|t: TaskPlan| t@));
    }
    r
}

/// Copies of the virtual users' configurations.
pub fn copy_configs(configs: &Vec<VUserConfig>) -> (r: Vec<VUserConfig>)
    ensures
        r@.map_values(|c: VUserConfig| c@) == configs@.map_values(|c: VUserConfig| c@),
{
    let mut r: Vec<VUserConfig> = Vec::new();
    let mut i: usize = 0;
    while i < configs.len()
        invariant
            i <= configs@.len(),
            r@.len() == i,
            forall|j: int| 0 <= j < i ==> (#[trigger] r@[j])@ == configs@[j]@,
        decreases configs@.len() - i,
    {
        r.push(configs[i].copied());
        i = i + 1;
    }
    proof {
        assert(r@.map_values(|c: VUserConfig| c@) =~= configs@.map_values(|c: VUserConfig| c@));
    }
    r
}

impl ScenarioPlan {
    /// A copy of the plan.
    pub fn copied(&self) -> (r: ScenarioPlan)
        ensures
            r@ == self@,
    {
        ScenarioPlan {
            name: self.name.clone(),
            rps: self.rps,
            duration_secs: self.duration_secs,
            ramp_up_secs: self.ramp_up_secs,
            mode: self.mode,
            target_url: self.target_url.clone(),
            tasks: copy_tasks(&self.tasks),
            scenario_file: copy_text(&self.scenario_file),
            scenario_class: copy_text(&self.scenario_class),
            n_vusers: self.n_vusers,
            vuser_configs: copy_configs(&self.vuser_configs),
            steps: self.steps,
        }
    }
}

// ── Laws ──────────────────────────────────────────────────────────────────────

/// Tasks that say the same agree in everything that a request is made of.
pub proof fn like_tasks_agree(a: TaskPlan, b: TaskPlan, k: Seq<char>)
    requires
        a@ == b@,
    ensures
        a.name@ == b.name@,
        a.weight == b.weight,
        a.url@ == b.url@,
        a.method == b.method,
        a.headers@.contains_key(k) <==> b.headers@.contains_key(k),
        a.headers@.contains_key(k) ==> a.headers@[k]@ == b.headers@[k]@,
        a.body_template is Some <==> b.body_template is Some,
        a.body_template is Some ==> a.body_template->0@ == b.body_template->0@,
{
    crate::map::texts_stand_under_their_keys(a.headers@, k);
    crate::map::texts_stand_under_their_keys(b.headers@, k);
}

/// Configurations that say the same bring along the same headers and paths.
pub proof fn like_configs_agree(a: VUserConfig, b: VUserConfig, task: Seq<char>, k: Seq<char>)
    requires
        a@ == b@,
    ensures
        a.task_urls@.contains_key(task) <==> b.task_urls@.contains_key(task),
        a.task_urls@.contains_key(task) ==> a.task_urls@[task]@ == b.task_urls@[task]@,
        a.task_headers@.contains_key(task) <==> b.task_headers@.contains_key(task),
        a.task_headers@.contains_key(task) ==> {
            &&& a.task_headers@[task]@.contains_key(k) <==> b.task_headers@[task]@.contains_key(k)
            &&& a.task_headers@[task]@.contains_key(k) ==> a.task_headers@[task]@[k]@
                == b.task_headers@[task]@[k]@
        },
{
    crate::map::texts_stand_under_their_keys(a.task_urls@, task);
    crate::map::texts_stand_under_their_keys(b.task_urls@, task);
    assert(header_maps(a.task_headers@).contains_key(task) <==> a.task_headers@.contains_key(task));
    assert(header_maps(b.task_headers@).contains_key(task) <==> b.task_headers@.contains_key(task));
    if a.task_headers@.contains_key(task) {
        assert(header_maps(a.task_headers@)[task] == header_maps(b.task_headers@)[task]);
        crate::map::texts_stand_under_their_keys(a.task_headers@[task]@, k);
        crate::map::texts_stand_under_their_keys(b.task_headers@[task]@, k);
    }
}

/// Plans that say the same agree in every number and text, task by task and
/// virtual user by virtual user.
pub proof fn like_plans_agree(a: ScenarioPlan, b: ScenarioPlan)
    requires
        a@ == b@,
    ensures
        a.name@ == b.name@,
        a.rps == b.rps,
        a.duration_secs == b.duration_secs,
        a.ramp_up_secs == b.ramp_up_secs,
        a.mode == b.mode,
        a.target_url@ == b.target_url@,
        a.scenario_file is Some <==> b.scenario_file is Some,
        a.scenario_file is Some ==> a.scenario_file->0@ == b.scenario_file->0@,
        a.scenario_class is Some <==> b.scenario_class is Some,
        a.scenario_class is Some ==> a.scenario_class->0@ == b.scenario_class->0@,
        a.n_vusers == b.n_vusers,
        a.steps == b.steps,
        a.tasks@.len() == b.tasks@.len(),
        forall|i: int| 0 <= i < a.tasks@.len() ==> (#[trigger] a.tasks@[i])@ == b.tasks@[i]@,
        a.vuser_configs@.len() == b.vuser_configs@.len(),
        forall|i: int|
            0 <= i < a.vuser_configs@.len() ==> (#[trigger] a.vuser_configs@[i])@
                == b.vuser_configs@[i]@,
{
    assert(a@.tasks.len() == a.tasks@.len() && b@.tasks.len() == b.tasks@.len());
    assert forall|i: int| 0 <= i < a.tasks@.len() implies (#[trigger] a.tasks@[i])@
        == b.tasks@[i]@ by {
        assert(a@.tasks[i] == b@.tasks[i]);
    }
    assert(a@.vuser_configs.len() == a.vuser_configs@.len());
    assert(b@.vuser_configs.len() == b.vuser_configs@.len());
    assert forall|i: int| 0 <= i < a.vuser_configs@.len() implies (#[trigger] a.vuser_configs@[i])@
        == b.vuser_configs@[i]@ by {
        assert(a@.vuser_configs[i] == b@.vuser_configs[i]);
    }
}

/// The header texts of each task are those of its map, under the same name.
pub proof fn header_texts_stand_under_their_tasks(
    m: Map<Seq<char>, StringMap<String>>,
    task: Seq<char>,
    k: Seq<char>,
)
    ensures
        header_maps(m).contains_key(task) <==> m.contains_key(task),
        m.contains_key(task) ==> {
            &&& header_maps(m)[task].contains_key(k) <==> m[task]@.contains_key(k)
            &&& m[task]@.contains_key(k) ==> header_maps(m)[task][k] == m[task]@[k]@
        },
{
    if m.contains_key(task) {
        crate::map::texts_stand_under_their_keys(m[task]@, k);
    }
}

} // verus!
