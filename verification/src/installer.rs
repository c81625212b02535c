use vstd::prelude::*;

verus! {

broadcast use vstd::string::group_string_axioms;

/// What is known of the installation. `install_time` is in milliseconds since the Unix epoch.
#[derive(Debug, Clone)]
pub struct InstallationStatus {
    pub is_installed: bool,
    pub config_exists: bool,
    pub database_initialized: bool,
    pub admin_created: bool,
    pub install_time: Option<i64>,
}

impl Default for InstallationStatus {
    fn default() -> (r: Self)
        ensures
            !r.is_installed,
            !r.config_exists,
            !r.database_initialized,
            !r.admin_created,
            r.install_time is None,
    {
        InstallationStatus {
            is_installed: false,
            config_exists: false,
            database_initialized: false,
            admin_created: false,
            install_time: None,
        }
    }
}

/// Decides whether the system is installed and the installer is needed.
pub struct InstallationChecker;

impl InstallationChecker {
    /// The file whose presence records an installation.
    pub const INSTALL_MARKER_FILE: &'static str = ".rainbow_docs_installed";

    /// The configuration file an installation writes.
    pub const CONFIG_FILE: &'static str = "config/production.toml";

    /// The installation status from what the marker file holds (`None` when it is missing or
    /// unreadable) and whether the configuration file exists: the system is installed when
    /// the configuration exists, the database was initialized and an administrator created.
    pub fn status_from(marker: Option<InstallationStatus>, config_exists: bool) -> (r: InstallationStatus)
        ensures
            r.config_exists == config_exists,
            marker matches Some(m) ==> {
                &&& r.database_initialized == m.database_initialized
                &&& r.admin_created == m.admin_created
                &&& r.install_time == m.install_time
            },
            marker is None ==> !r.database_initialized && !r.admin_created && r.install_time is None,
            r.is_installed == (config_exists && r.database_initialized && r.admin_created),
    {
        let mut status = match marker {
            Some(m) => m,
            None => InstallationStatus::default(),
        };
        status.config_exists = config_exists;
        status.is_installed = status.config_exists && status.database_initialized
            && status.admin_created;
        status
    }

    /// Whether the installer must be shown: the system is not installed.
    pub fn should_show_installer(status: &InstallationStatus) -> (r: bool)
        ensures
            r == !status.is_installed,
    {
        !status.is_installed
    }
}

/// What the installation form asks for.
#[derive(Debug, Clone)]
pub struct InstallConfig {
    pub database_url: String,
    pub admin_username: String,
    pub admin_email: String,
    pub admin_password: String,
    pub site_name: String,
    pub site_description: Option<String>,
    pub jwt_secret: String,
}

/// A step of the installation wizard.
#[derive(Debug, Clone)]
pub struct InstallStep {
    pub step: u8,
    pub title: String,
    pub description: String,
    pub completed: bool,
}

/// The steps of the installation wizard: number, title and description.
pub open spec fn install_steps() -> Seq<(u8, Seq<char>, Seq<char>)> {
    seq![
        (1u8, "环境检查"@, "检查系统环境和依赖"@),
        (2u8, "数据库配置"@, "配置SurrealDB连接"@),
        (3u8, "管理员账户"@, "创建系统管理员账户"@),
        (4u8, "站点配置"@, "配置站点基本信息"@),
        (5u8, "完成安装"@, "保存配置并初始化系统"@),
    ]
}

/// The number, title and description of each step.
pub open spec fn steps_view(v: Seq<InstallStep>) -> Seq<(u8, Seq<char>, Seq<char>)> {
    Seq::new(v.len(), |i: int| (v[i].step, v[i].title@, v[i].description@))
}

fn push_step(v: &mut Vec<InstallStep>, step: u8, title: &str, description: &str)
    ensures
        steps_view(final(v)@) == steps_view(old(v)@).push((step, title@, description@)),
        final(v)@.len() == old(v)@.len() + 1,
        forall|i: int| 0 <= i < old(v)@.len() ==> final(v)@[i] == old(v)@[i],
        !final(v)@[old(v)@.len() as int].completed,
{
    let ghost before = v@;
    v.push(
        InstallStep {
            step,
            title: title.to_owned(),
            description: description.to_owned(),
            completed: false,
        },
    );
    assert(steps_view(v@) =~= steps_view(before).push((step, title@, description@)));
}

/// Guides an installation through its steps.
pub struct InstallationWizard;

impl InstallationWizard {
    /// The five steps of an installation, none completed.
    pub fn get_steps() -> (r: Vec<InstallStep>)
        ensures
            steps_view(r@) == install_steps(),
            forall|i: int| 0 <= i < r@.len() ==> !(#[trigger] r@[i]).completed,
    {
        let mut v: Vec<InstallStep> = Vec::new();
        push_step(&mut v, 1, "环境检查", "检查系统环境和依赖");
        push_step(&mut v, 2, "数据库配置", "配置SurrealDB连接");
        push_step(&mut v, 3, "管理员账户", "创建系统管理员账户");
        push_step(&mut v, 4, "站点配置", "配置站点基本信息");
        push_step(&mut v, 5, "完成安装", "保存配置并初始化系统");
        assert(steps_view(v@) =~= install_steps());
        v
    }

    /// The index of the first step numbered `step`, if any.
    pub fn find_step(steps: &Vec<InstallStep>, step: u8) -> (r: Option<usize>)
        ensures
            match r {
                Some(i) => i < steps@.len() && steps@[i as int].step == step && forall|j: int|
                    0 <= j < i ==> (#[trigger] steps@[j]).step != step,
                None => forall|j: int| 0 <= j < steps@.len() ==> (#[trigger] steps@[j]).step != step,
            },
    {
        let mut i: usize = 0;
        while i < steps.len()
            invariant
                i <= steps.len(),
                forall|j: int| 0 <= j < i ==> (#[trigger] steps@[j]).step != step,
            decreases steps.len() - i,
        {
            if steps[i].step == step {
                return Some(i);
            }
            i += 1;
        }
        None
    }
}

/// The query of the installation-steps request: one step, or all when absent.
#[derive(Debug, Clone)]
pub struct InstallQuery {
    pub step: Option<u8>,
}

/// What the installation requests answer: a status word, a message and data as JSON text.
#[derive(Debug, Clone)]
pub struct InstallResponse {
    pub status: String,
    pub message: String,
    pub data: Option<String>,
}

/// The answer to an installation request when the system is already installed, or `None` when
/// the installation may go on.
pub fn install_precheck(status: &InstallationStatus) -> (r: Option<InstallResponse>)
    ensures
        status.is_installed <==> r is Some,
        r matches Some(resp) ==> resp.status@ == "error"@ && resp.message@
            == "System is already installed"@ && resp.data is None,
{
    if status.is_installed {
        Some(
            InstallResponse {
                status: "error".to_owned(),
                message: "System is already installed".to_owned(),
                data: None,
            },
        )
    } else {
        None
    }
}

} // verus!
