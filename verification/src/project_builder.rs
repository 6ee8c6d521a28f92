//! A project: where its documents, assets and template lie, and where what
//! is built from them is put.

use crate::error::CompileError;
use crate::file_utils::{
    absolutize_from, join_paths, option_text, path_absolutize_from, path_join,
};
use vstd::prelude::*;

verus! {

/// A project as its file describes it.
pub struct ReadProject {
    /// The directory of the project's documents.
    pub path: String,
    /// The directory of the assets.
    pub assets: String,
    /// The entry document.
    pub entry: String,
    /// The directory for what is built; `./build` where none is given.
    pub output: Option<String>,
    /// The template into which the composed markup is put.
    pub template: String,
}

/// A project, with the directory in which its file lies.
pub struct Project {
    path: String,
    assets: String,
    entry: String,
    template: String,
    output: String,
    location: String,
}

/// A project.
pub struct ProjectModel {
    /// The directory of the project's documents.
    pub path: Seq<char>,
    /// The directory of the assets.
    pub assets: Seq<char>,
    /// The entry document.
    pub entry: Seq<char>,
    /// The template into which the composed markup is put.
    pub template: Seq<char>,
    /// The directory for what is built.
    pub output: Seq<char>,
    /// The directory in which the project's file lies.
    pub location: Seq<char>,
}

impl View for Project {
    type V = ProjectModel;

    closed spec fn view(&self) -> ProjectModel {
        ProjectModel {
            path: self.path@,
            assets: self.assets@,
            entry: self.entry@,
            template: self.template@,
            output: self.output@,
            location: self.location@,
        }
    }
}

/// The paths that building a project uses.
pub struct Layout {
    /// The directory of the project's documents, absolute.
    pub build: String,
    /// The entry document.
    pub entry: String,
    /// The directory of the assets, absolute.
    pub assets: String,
    /// The template, absolute.
    pub template: String,
    /// The directory for the markup and the assets, absolute.
    pub html_dir: String,
    /// The directory for the printed document, absolute.
    pub pdf_dir: String,
    /// The file for the markup.
    pub html_file: String,
    /// The file for the printed document.
    pub pdf_file: String,
}

/// The paths that building a project uses.
pub struct LayoutModel {
    /// The directory of the project's documents, absolute.
    pub build: Seq<char>,
    /// The entry document.
    pub entry: Seq<char>,
    /// The directory of the assets, absolute.
    pub assets: Seq<char>,
    /// The template, absolute.
    pub template: Seq<char>,
    /// The directory for the markup and the assets, absolute.
    pub html_dir: Seq<char>,
    /// The directory for the printed document, absolute.
    pub pdf_dir: Seq<char>,
    /// The file for the markup.
    pub html_file: Seq<char>,
    /// The file for the printed document.
    pub pdf_file: Seq<char>,
}

impl View for Layout {
    type V = LayoutModel;

    open spec fn view(&self) -> LayoutModel {
        LayoutModel {
            build: self.build@,
            entry: self.entry@,
            assets: self.assets@,
            template: self.template@,
            html_dir: self.html_dir@,
            pdf_dir: self.pdf_dir@,
            html_file: self.html_file@,
            pdf_file: self.pdf_file@,
        }
    }
}

/// `path` put behind `base` and made absolute from `location`.
pub open spec fn placed(location: Seq<char>, base: Seq<char>, path: Seq<char>) -> Option<
    Seq<char>,
> {
    match path_join(base, path) {
        Some(joined) => path_absolutize_from(joined, location),
        None => None,
    }
}

/// The directory `name` of what is built, absolute.
pub open spec fn output_dir(p: ProjectModel, name: Seq<char>) -> Option<Seq<char>> {
    match path_join(p.path, p.output) {
        Some(output) => placed(p.location, output, name),
        None => None,
    }
}

/// The paths that building `p` uses: the markup goes to `index.html` in
/// the directory `html` of the output, the printed document to `index.pdf`
/// in its directory `pdf`.  `None` where one of the paths is no text.
pub open spec fn layout_of(p: ProjectModel) -> Option<LayoutModel> {
    let build = path_absolutize_from(p.path, p.location);
    let entry = path_join(p.path, p.entry);
    let assets = placed(p.location, p.path, p.assets);
    let template = placed(p.location, p.path, p.template);
    let html_dir = output_dir(p, "html"@);
    let pdf_dir = output_dir(p, "pdf"@);
    if build is Some && entry is Some && assets is Some && template is Some && html_dir is Some
        && pdf_dir is Some {
        let html_file = path_join(html_dir->0, "index.html"@);
        let pdf_file = path_join(pdf_dir->0, "index.pdf"@);
        if html_file is Some && pdf_file is Some {
            Some(
                LayoutModel {
                    build: build->0,
                    entry: entry->0,
                    assets: assets->0,
                    template: template->0,
                    html_dir: html_dir->0,
                    pdf_dir: pdf_dir->0,
                    html_file: html_file->0,
                    pdf_file: pdf_file->0,
                },
            )
        } else {
            None
        }
    } else {
        None
    }
}

/// `path` put behind `base` and made absolute from `location`.
fn place(location: &str, base: &str, path: &str) -> (r: Option<String>)
    ensures
        option_text(r) == placed(location@, base@, path@),
{
    match join_paths(base, path) {
        Some(joined) => absolutize_from(joined.as_str(), location),
        None => None,
    }
}

impl Project {
    /// The project that `read_project` describes, whose file lies in the
    /// directory `project_location`.
    pub fn from_read_project(read_project: &ReadProject, project_location: &str) -> (p: Project)
        ensures
            p@ == (ProjectModel {
                path: read_project.path@,
                assets: read_project.assets@,
                entry: read_project.entry@,
                template: read_project.template@,
                output: match read_project.output {
                    Some(output) => output@,
                    None => "./build"@,
                },
                location: project_location@,
            }),
    {
        let output = match &read_project.output {
            Some(output) => output.clone(),
            None => "./build".to_owned(),
        };
        Project {
            path: read_project.path.clone(),
            assets: read_project.assets.clone(),
            entry: read_project.entry.clone(),
            template: read_project.template.clone(),
            output,
            location: project_location.to_owned(),
        }
    }

    /// The directory of the project's documents.
    pub fn path(&self) -> (s: &str)
        ensures
            s@ == self@.path,
    {
        self.path.as_str()
    }

    /// The entry document.
    pub fn entry(&self) -> (s: &str)
        ensures
            s@ == self@.entry,
    {
        self.entry.as_str()
    }

    /// The directory in which the project's file lies.
    pub fn location(&self) -> (s: &str)
        ensures
            s@ == self@.location,
    {
        self.location.as_str()
    }

    /// The paths that building the project uses, with the directory of the
    /// project's file as the working directory.
    pub fn layout(&self) -> (r: Result<Layout, CompileError>)
        ensures
            match r {
                Ok(layout) => layout_of(self@) == Some(layout@),
                Err(e) => e == CompileError::PathEncodingError && layout_of(self@) is None,
            },
    {
        let location = self.location.as_str();
        let path = self.path.as_str();
        let build = absolutize_from(path, location);
        let entry = join_paths(path, self.entry.as_str());
        let assets = place(location, path, self.assets.as_str());
        let template = place(location, path, self.template.as_str());
        let output = join_paths(path, self.output.as_str());
        let (html_dir, pdf_dir) = match output {
            Some(output) => (
                place(location, output.as_str(), "html"),
                place(location, output.as_str(), "pdf"),
            ),
            None => (None, None),
        };
        match (build, entry, assets, template, html_dir, pdf_dir) {
            (Some(build), Some(entry), Some(assets), Some(template), Some(html_dir), Some(pdf_dir)) => {
                let html_file = join_paths(html_dir.as_str(), "index.html");
                let pdf_file = join_paths(pdf_dir.as_str(), "index.pdf");
                match (html_file, pdf_file) {
                    (Some(html_file), Some(pdf_file)) => Ok(
                        Layout {
                            build,
                            entry,
                            assets,
                            template,
                            html_dir,
                            pdf_dir,
                            html_file,
                            pdf_file,
                        },
                    ),
                    _ => Err(CompileError::PathEncodingError),
                }
            },
            _ => Err(CompileError::PathEncodingError),
        }
    }
}

} // verus!
